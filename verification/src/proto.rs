pub mod chandata;
pub mod indication;
pub mod lifetime;
