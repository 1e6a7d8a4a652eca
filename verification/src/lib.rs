//! Drawings of trees and graphs, described as plain data for a layout engine.
pub mod attrs;
pub mod decimal;
pub mod draw;
pub mod graph;
pub mod gsvg;
pub mod tree;

pub use crate::attrs::{is_nul_free, make_attr, make_attrs, value_of, Attr, Attrs};
pub use crate::draw::{Draw, DrawTree};
pub use crate::graph::{Edge, EdgeKind, Graph, Traversal};
pub use crate::gsvg::{EdgeRecord, NodeRecord, GSVG};
pub use crate::tree::{TreeLink, TreeNode};
