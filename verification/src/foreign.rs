//! The names of a foreign agent whose files are read too.
//!
//! Its identifiers, directories and files bear the name that its environment variable begins with.
use crate::text;
use crate::text::{concat, lower_text, slice_string, to_chars};
use vstd::prelude::*;

verus! {

/// The variable that names the agent's configuration directory.
pub const CONFIG_VARIABLE: &'static str = "CLAUDE_CONFIG_DIR";

/// The name in capitals.
pub open spec fn capitals() -> Seq<char> {
    "CLAUDE_CONFIG_DIR"@.take(6)
}

/// The agent as a source of files.
pub open spec fn id() -> Seq<char> {
    text::lower(capitals())
}

/// The agent's standalone files as a source.
pub open spec fn file_id() -> Seq<char> {
    id() + "-md"@
}

/// The agent's plugins as a source.
pub open spec fn plugins_id() -> Seq<char> {
    id() + "-plugins"@
}

/// The agent's directory below a home or a project.
pub open spec fn dir() -> Seq<char> {
    "."@ + id()
}

/// The agent's context file.
pub open spec fn file() -> Seq<char> {
    capitals() + ".md"@
}

/// What the agent is called.
pub open spec fn title() -> Seq<char> {
    capitals().take(1) + id().skip(1) + " Code"@
}

/// The name in capitals.
pub fn capitals_text() -> (r: String)
    ensures
        r@ == capitals(),
{
    proof {
        reveal_strlit("CLAUDE_CONFIG_DIR");
        assert("CLAUDE_CONFIG_DIR"@.len() == 17);
    }
    let v = to_chars(CONFIG_VARIABLE);
    let r = slice_string(&v, 0, 6);
    assert(r@ =~= capitals());
    r
}

/// The agent as a source of files.
pub fn id_text() -> (r: String)
    ensures
        r@ == id(),
{
    lower_text(&capitals_text())
}

/// The agent's standalone files as a source.
pub fn file_id_text() -> (r: String)
    ensures
        r@ == file_id(),
{
    concat(&id_text(), "-md")
}

/// The agent's plugins as a source.
pub fn plugins_id_text() -> (r: String)
    ensures
        r@ == plugins_id(),
{
    concat(&id_text(), "-plugins")
}

/// The agent's directory below a home or a project.
pub fn dir_text() -> (r: String)
    ensures
        r@ == dir(),
{
    concat(".", &id_text())
}

/// The agent's context file.
pub fn file_text() -> (r: String)
    ensures
        r@ == file(),
{
    concat(&capitals_text(), ".md")
}

/// What the agent is called.
pub fn title_text() -> (r: String)
    ensures
        r@ == title(),
{
    proof {
        reveal_strlit("CLAUDE_CONFIG_DIR");
        assert("CLAUDE_CONFIG_DIR"@.len() == 17);
    }
    let big = to_chars(&capitals_text());
    let small = to_chars(&id_text());
    let first = slice_string(&big, 0, 1);
    let rest = slice_string(&small, 1, 6);
    proof {
        assert(first@ =~= capitals().take(1));
        assert(rest@ =~= id().skip(1));
    }
    concat(&concat(&first, &rest), " Code")
}

} // verus!
