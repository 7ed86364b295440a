pub mod parent;
pub mod survivor;
