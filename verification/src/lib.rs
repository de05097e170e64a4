//! Verified core of a collaborative book-production server: text escaping,
//! citation rewriting, content blocks and their forms in the block editor
//! and in the collaborative document, bibliography values and trees, the
//! project list, rich-text rendering for export, category trees, websocket
//! framing, sign-in decisions and storage bookkeeping.

pub mod text;
pub mod ids;
pub mod content;
pub mod wordpress;
pub mod biblio;
pub mod html;
pub mod import;
pub mod websocket;
pub mod session;
pub mod storage;
pub mod projects;
pub mod hyphen;
pub mod export;
pub mod latex;
pub mod metadata;
pub mod trees;
pub mod bibtree;
pub mod richtext;
pub mod ydoc;
pub mod languages;
pub mod sections;
pub mod bibentry;
