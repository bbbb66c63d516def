//! A static, bulk-loaded R-tree over integer rectangles.

pub mod iter;
pub mod laws;
pub mod node;
pub mod point;
pub mod rectangle;
pub mod tree;

pub use self::point::MortonPoint;
pub use self::point::Point;
pub use self::rectangle::MortonRectangle;
pub use self::rectangle::Rectangle;
pub use self::node::Node;
pub use self::node::PointsAt;
pub use self::tree::RTree;
pub use self::iter::Iter;
