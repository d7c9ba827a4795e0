pub mod codegen;
pub mod entry_guard;
pub mod facade;
pub mod graph;
pub mod html;
pub mod jsonstr;
pub mod laws;
pub mod lazy;
pub mod property_access;
pub mod runtime_split;
pub mod strutil;
pub mod umd;
