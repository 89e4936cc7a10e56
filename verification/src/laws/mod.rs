//! What holds of the library as a whole, stated over what goes in and what comes out.

pub mod browsing;
pub mod calls;
pub mod controlling;
pub mod detection;
pub mod extraction;
pub mod naming;
pub mod rar;
pub mod sevenz;
pub mod showing;
pub mod tar;
pub mod walking;
pub mod zip;
