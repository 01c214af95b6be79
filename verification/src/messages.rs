//! Message kinds of recorded bags, topic summaries and playback states.

use vstd::prelude::*;
use crate::text::str_eq;

verus! {

/// Known ROS message types.
#[derive(Debug, Clone, PartialEq)]
pub enum MessageType {
    /// sensor_msgs/PointCloud2
    PointCloud2,
    /// tf2_msgs/TFMessage or tf/tfMessage
    TfMessage,
    /// sensor_msgs/LaserScan
    LaserScan,
    /// sensor_msgs/Image
    Image,
    /// nav_msgs/Odometry
    Odometry,
    /// sensor_msgs/Imu
    Imu,
    /// geometry_msgs/PoseStamped
    PoseStamped,
    /// geometry_msgs/Twist
    Twist,
    /// Unknown message type
    Unknown(String),
}

/// The type name written for each known kind; an unknown kind keeps its own name.
pub open spec fn spec_ros_type(t: MessageType) -> Seq<char> {
    match t {
        MessageType::PointCloud2 => "sensor_msgs/PointCloud2"@,
        MessageType::TfMessage => "tf2_msgs/TFMessage"@,
        MessageType::LaserScan => "sensor_msgs/LaserScan"@,
        MessageType::Image => "sensor_msgs/Image"@,
        MessageType::Odometry => "nav_msgs/Odometry"@,
        MessageType::Imu => "sensor_msgs/Imu"@,
        MessageType::PoseStamped => "geometry_msgs/PoseStamped"@,
        MessageType::Twist => "geometry_msgs/Twist"@,
        MessageType::Unknown(s) => s@,
    }
}

/// The kind named by a type name: each known name gives its kind (both the tf2
/// and the tf name give `TfMessage`), any other name is kept as unknown.
pub open spec fn kind_of(name: Seq<char>, r: MessageType) -> bool {
    if name == "sensor_msgs/PointCloud2"@ {
        r == MessageType::PointCloud2
    } else if name == "tf2_msgs/TFMessage"@ || name == "tf/tfMessage"@ {
        r == MessageType::TfMessage
    } else if name == "sensor_msgs/LaserScan"@ {
        r == MessageType::LaserScan
    } else if name == "sensor_msgs/Image"@ {
        r == MessageType::Image
    } else if name == "nav_msgs/Odometry"@ {
        r == MessageType::Odometry
    } else if name == "sensor_msgs/Imu"@ {
        r == MessageType::Imu
    } else if name == "geometry_msgs/PoseStamped"@ {
        r == MessageType::PoseStamped
    } else if name == "geometry_msgs/Twist"@ {
        r == MessageType::Twist
    } else {
        r matches MessageType::Unknown(s) && s@ == name
    }
}

impl MessageType {
    /// Parse message type from ROS type string.
    pub fn from_ros_type(ros_type: &str) -> (r: MessageType)
        ensures
            kind_of(ros_type@, r),
    {
        if str_eq(ros_type, "sensor_msgs/PointCloud2") {
            MessageType::PointCloud2
        } else if str_eq(ros_type, "tf2_msgs/TFMessage") || str_eq(ros_type, "tf/tfMessage") {
            MessageType::TfMessage
        } else if str_eq(ros_type, "sensor_msgs/LaserScan") {
            MessageType::LaserScan
        } else if str_eq(ros_type, "sensor_msgs/Image") {
            MessageType::Image
        } else if str_eq(ros_type, "nav_msgs/Odometry") {
            MessageType::Odometry
        } else if str_eq(ros_type, "sensor_msgs/Imu") {
            MessageType::Imu
        } else if str_eq(ros_type, "geometry_msgs/PoseStamped") {
            MessageType::PoseStamped
        } else if str_eq(ros_type, "geometry_msgs/Twist") {
            MessageType::Twist
        } else {
            MessageType::Unknown(ros_type.to_owned())
        }
    }

    /// Get the ROS type string.
    pub fn ros_type(&self) -> (r: &str)
        ensures
            r@ == spec_ros_type(*self),
    {
        match self {
            MessageType::PointCloud2 => "sensor_msgs/PointCloud2",
            MessageType::TfMessage => "tf2_msgs/TFMessage",
            MessageType::LaserScan => "sensor_msgs/LaserScan",
            MessageType::Image => "sensor_msgs/Image",
            MessageType::Odometry => "nav_msgs/Odometry",
            MessageType::Imu => "sensor_msgs/Imu",
            MessageType::PoseStamped => "geometry_msgs/PoseStamped",
            MessageType::Twist => "geometry_msgs/Twist",
            MessageType::Unknown(s) => s.as_str(),
        }
    }

    /// Check if this is a visualization-relevant type.
    pub fn is_visualizable(&self) -> (r: bool)
        ensures
            r == (*self is PointCloud2 || *self is LaserScan || *self is Image || *self is Odometry
                || *self is PoseStamped),
    {
        match self {
            MessageType::PointCloud2 | MessageType::LaserScan | MessageType::Image
            | MessageType::Odometry | MessageType::PoseStamped => true,
            _ => false,
        }
    }
}

/// Information about a topic in the bag.
#[derive(Debug, Clone)]
pub struct TopicInfo {
    /// Topic name (e.g., "/velodyne_points")
    pub name: String,
    /// Message type (e.g., "sensor_msgs/PointCloud2")
    pub msg_type: String,
    /// Number of messages on this topic
    pub message_count: u64,
    /// MD5 sum of the message definition (hex string)
    pub md5sum: String,
}

/// Playback state.
#[derive(Debug, Clone, Copy, PartialEq)]
pub enum PlaybackState {
    /// Not playing, at beginning
    Stopped,
    /// Currently playing
    Playing,
    /// Paused at current position
    Paused,
    /// Reached end of bag
    Finished,
}

/// Both the tf2 type name and the older tf type name classify as a transform
/// message.
pub proof fn law_tf_type_names(name: Seq<char>, r: MessageType)
    requires
        kind_of(name, r),
        name == "tf2_msgs/TFMessage"@ || name == "tf/tfMessage"@,
    ensures
        r == MessageType::TfMessage,
{
    reveal_strlit("sensor_msgs/PointCloud2");
    reveal_strlit("tf2_msgs/TFMessage");
    reveal_strlit("tf/tfMessage");
    reveal_strlit("sensor_msgs/LaserScan");
    reveal_strlit("sensor_msgs/Image");
    reveal_strlit("nav_msgs/Odometry");
    reveal_strlit("sensor_msgs/Imu");
    reveal_strlit("geometry_msgs/PoseStamped");
    reveal_strlit("geometry_msgs/Twist");
    assert("tf/tfMessage"@.len() != "sensor_msgs/PointCloud2"@.len());
    assert("tf2_msgs/TFMessage"@.len() != "sensor_msgs/PointCloud2"@.len());
}

/// A known message type is classified back as itself from its type name.
pub proof fn law_ros_type_round_trip(k: MessageType, r: MessageType)
    requires
        !(k is Unknown),
        kind_of(spec_ros_type(k), r),
    ensures
        r == k,
{
    reveal_strlit("sensor_msgs/PointCloud2");
    reveal_strlit("tf2_msgs/TFMessage");
    reveal_strlit("tf/tfMessage");
    reveal_strlit("sensor_msgs/LaserScan");
    reveal_strlit("sensor_msgs/Image");
    reveal_strlit("nav_msgs/Odometry");
    reveal_strlit("sensor_msgs/Imu");
    reveal_strlit("geometry_msgs/PoseStamped");
    reveal_strlit("geometry_msgs/Twist");
    match k {
        MessageType::PointCloud2 => {},
        MessageType::TfMessage => {
            assert("tf2_msgs/TFMessage"@.len() != "sensor_msgs/PointCloud2"@.len());
        },
        MessageType::LaserScan => {
            assert("sensor_msgs/LaserScan"@.len() != "sensor_msgs/PointCloud2"@.len());
            assert("sensor_msgs/LaserScan"@.len() != "tf2_msgs/TFMessage"@.len());
            assert("sensor_msgs/LaserScan"@.len() != "tf/tfMessage"@.len());
        },
        MessageType::Image => {
            assert("sensor_msgs/Image"@.len() != "sensor_msgs/PointCloud2"@.len());
            assert("sensor_msgs/Image"@.len() != "tf2_msgs/TFMessage"@.len());
            assert("sensor_msgs/Image"@.len() != "tf/tfMessage"@.len());
            assert("sensor_msgs/Image"@.len() != "sensor_msgs/LaserScan"@.len());
        },
        MessageType::Odometry => {
            assert("nav_msgs/Odometry"@[0] != "sensor_msgs/PointCloud2"@[0]);
            assert("nav_msgs/Odometry"@[0] != "tf2_msgs/TFMessage"@[0]);
            assert("nav_msgs/Odometry"@[0] != "tf/tfMessage"@[0]);
            assert("nav_msgs/Odometry"@[0] != "sensor_msgs/LaserScan"@[0]);
            assert("nav_msgs/Odometry"@[0] != "sensor_msgs/Image"@[0]);
        },
        MessageType::Imu => {
            assert("sensor_msgs/Imu"@.len() != "sensor_msgs/PointCloud2"@.len());
            assert("sensor_msgs/Imu"@.len() != "tf2_msgs/TFMessage"@.len());
            assert("sensor_msgs/Imu"@.len() != "tf/tfMessage"@.len());
            assert("sensor_msgs/Imu"@.len() != "sensor_msgs/LaserScan"@.len());
            assert("sensor_msgs/Imu"@.len() != "sensor_msgs/Image"@.len());
            assert("sensor_msgs/Imu"@[0] != "nav_msgs/Odometry"@[0]);
        },
        MessageType::PoseStamped => {
            assert("geometry_msgs/PoseStamped"@[0] != "sensor_msgs/PointCloud2"@[0]);
            assert("geometry_msgs/PoseStamped"@[0] != "tf2_msgs/TFMessage"@[0]);
            assert("geometry_msgs/PoseStamped"@[0] != "tf/tfMessage"@[0]);
            assert("geometry_msgs/PoseStamped"@[0] != "sensor_msgs/LaserScan"@[0]);
            assert("geometry_msgs/PoseStamped"@[0] != "sensor_msgs/Image"@[0]);
            assert("geometry_msgs/PoseStamped"@[0] != "nav_msgs/Odometry"@[0]);
            assert("geometry_msgs/PoseStamped"@[0] != "sensor_msgs/Imu"@[0]);
        },
        MessageType::Twist => {
            assert("geometry_msgs/Twist"@[0] != "sensor_msgs/PointCloud2"@[0]);
            assert("geometry_msgs/Twist"@[0] != "tf2_msgs/TFMessage"@[0]);
            assert("geometry_msgs/Twist"@[0] != "tf/tfMessage"@[0]);
            assert("geometry_msgs/Twist"@[0] != "sensor_msgs/LaserScan"@[0]);
            assert("geometry_msgs/Twist"@[0] != "sensor_msgs/Image"@[0]);
            assert("geometry_msgs/Twist"@[0] != "nav_msgs/Odometry"@[0]);
            assert("geometry_msgs/Twist"@[0] != "sensor_msgs/Imu"@[0]);
            assert("geometry_msgs/Twist"@.len() != "geometry_msgs/PoseStamped"@.len());
        },
        MessageType::Unknown(_) => {},
    }
}

} // verus!
