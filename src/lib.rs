pub mod canvas;
pub mod term;
pub mod world;
pub mod telnet;
pub mod session;
