pub mod command;
