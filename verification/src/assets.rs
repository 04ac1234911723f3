use vstd::prelude::*;

use crate::error::Error;

verus! {

/// The glob pattern under which the templating engine finds every template
/// of the assets directory.
pub fn template_dir(assets: &str) -> (r: Result<String, Error>)
    ensures
        r matches Ok(s) && s@ == assets@ + "/templates/**/*"@,
{
    let mut s = String::from_str(assets);
    s.append("/templates/**/*");
    Ok(s)
}

/// The directory the embedded fonts are copied from.
pub fn fonts_dir(assets: &str) -> (r: Result<String, Error>)
    ensures
        r matches Ok(s) && s@ == assets@ + "/fonts"@,
{
    let mut s = String::from_str(assets);
    s.append("/fonts");
    Ok(s)
}

} // verus!
