pub mod assets;
pub mod epub;
pub mod error;
pub mod numerals;
pub mod project;
pub mod render;
pub mod templates;
pub mod writer;
pub mod wstatic;

pub use crate::epub::{EpubWriter, Zip};
pub use crate::error::{Error, Raise};
pub use crate::project::{Chapter, Content, Cover, Language, Loader, Part, Project};
pub use crate::render::{Html, Typesetter};
pub use crate::writer::{BookWriter, Memory, ResourceReader};
pub use crate::wstatic::Static;
