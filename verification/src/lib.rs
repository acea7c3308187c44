//! Binary trees and binary search trees with recursive and iterative traversals.

pub mod binary_tree;
