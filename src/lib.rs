//! Infix-to-postfix conversion with the shunting-yard algorithm, together
//! with the two small ordered containers it runs on.
pub mod stack;
pub mod queue;
pub mod shunting_yard;
