pub mod combinations;
pub mod force;
pub mod plug_options;
