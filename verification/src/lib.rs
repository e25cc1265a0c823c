//! Parsing and normalisation of SMTP envelope addresses.
//!
//! Only the addr-spec forms of the `MAIL FROM` and `RCPT TO` commands are
//! accepted: `local@domain`, `<local@domain>` and the null reverse-path `<>`.
//! Display names, comments and header syntax are rejected.

pub mod chars;
pub mod text;
pub mod addr;
pub mod laws;
