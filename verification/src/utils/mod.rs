pub mod cli;
pub mod text;
pub mod paths;
pub mod listdirs;
