//! The verified core of a robot data visualizer: the parsers of recorded
//! sensor messages, the transform and frame trees, the dataflow descriptions
//! and message protocol, and the state of the displays and panels, each with
//! its contract.

use vstd::prelude::*;

pub mod bridge;
pub mod color;
pub mod config;
pub mod display;
pub mod errors;
pub mod frame;
pub mod marker;
pub mod messages;
pub mod protocol;
pub mod text;
pub mod wire;
pub mod pointcloud;
pub mod imu;
pub mod gps;
pub mod dora;
pub mod transform_buffer;
pub mod mesh;
pub mod robot;
pub mod displays;
pub mod dataflow;
pub mod receiver;
pub mod transform_laws;
pub mod tf_buffer;
pub mod frame_tree;
pub mod frame_laws;
pub mod display_list;
pub mod log_panel;
pub mod base_display;
pub mod assoc;
pub mod graph_state;
pub mod tf_display;
pub mod axes_display;
pub mod graph_view;
pub mod bridge_loop;
pub mod bag_summary;
pub mod dataflow_doc;
pub mod log_metadata;

verus! {
}
