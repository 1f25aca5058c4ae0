//! The logic of the toolkit's individual commands.
use vstd::prelude::*;
use crate::text::{push_str, string_of};

pub mod diskusage;
pub mod pdf;
pub mod rename;
pub mod archive;
pub mod office;
pub mod checksum;
pub mod dedup;
pub mod video;
pub mod image;
pub mod batch;

verus! {

/// The greeting by which the front end checks that the back end answers.
pub fn greet(name: &str) -> (r: String)
    ensures
        r@ == "来自 Rust 后端的问候:你好,"@ + name@ + "!FileToolkit 已就绪。"@,
{
    let mut m: Vec<char> = Vec::new();
    push_str(&mut m, "来自 Rust 后端的问候:你好,");
    push_str(&mut m, name);
    push_str(&mut m, "!FileToolkit 已就绪。");
    string_of(m.as_slice())
}

} // verus!
