//! Recovery of the HMAC secret of a JSON Web Token by exhaustive or
//! dictionary search, with the search logic verified.

pub mod bruteforce;
pub mod cli;
pub mod crypto;
pub mod enumerator;
pub mod errors;
pub mod hw;
pub mod jwt;
pub mod text;
pub mod validator;
