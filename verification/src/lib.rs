//! Collider trees and broad phase collision detection.
#![allow(unused_imports)]

pub mod bvh;
pub mod change_detection;
pub mod collider_tree;
pub mod collision;
pub mod data_structures;
pub mod entity;
pub mod joint_graph;
pub mod rigid_body;
