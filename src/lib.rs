//! Maps physical input events (keyboard, mouse, controllers) to application-defined
//! logical inputs, and eases digital input into a bounded virtual axis.
pub mod input_handler;
pub mod virtual_axis;

pub use input_handler::Behavior;
pub use input_handler::InputHandler;
pub use input_handler::InputtyResult;
pub use input_handler::PhysicalInput;
pub use input_handler::PhysicalInputValue;
