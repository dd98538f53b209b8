pub mod transform;
pub mod promote;
pub mod embedded;
pub mod order;
pub mod block;
pub mod gather;
pub mod float;
pub mod typed;
pub mod lift_error;
