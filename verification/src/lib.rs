//! Editor features over an Odoo code base: the override markers of a Python file, and the
//! symbols that the cursor points at in an XML data file.

pub mod lsp;
pub mod marker_laws;
pub mod override_markers;
pub mod references;
pub mod search_laws;
pub mod seqs;
pub mod session;
pub mod text;
pub mod view_model;
pub mod xml_ast_utils;
pub mod xml_node;
