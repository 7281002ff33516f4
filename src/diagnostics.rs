//! Choices behind the diagnostic commands.

use vstd::prelude::*;

use crate::smb::{trim, trimmed_string};
use crate::text::str_eq;

verus! {

/// The `netstat` arguments for a report kind; an unknown kind lists all
/// connections.
pub open spec fn netstat_args_for(option: Seq<char>) -> Seq<Seq<char>> {
    if option == "all"@ {
        seq!["-a"@, "-n"@]
    } else if option == "listening"@ {
        seq!["-a"@, "-n"@, "-p"@, "TCP"@]
    } else if option == "stats"@ {
        seq!["-s"@]
    } else if option == "routes"@ {
        seq!["-r"@]
    } else {
        seq!["-a"@]
    }
}

/// The `netstat` arguments for `all`, `listening`, `stats` or `routes`.
pub fn netstat_args(option: &str) -> (r: Vec<&'static str>)
    ensures
        r@.map_values(|a: &str| a@) == netstat_args_for(option@),
{
    let r = if str_eq(option, "all") {
        vec!["-a", "-n"]
    } else if str_eq(option, "listening") {
        vec!["-a", "-n", "-p", "TCP"]
    } else if str_eq(option, "stats") {
        vec!["-s"]
    } else if str_eq(option, "routes") {
        vec!["-r"]
    } else {
        vec!["-a"]
    };
    assert(r@.map_values(|a: &str| a@) =~= netstat_args_for(option@));
    r
}

/// `c` in ASCII lower case.
pub open spec fn ascii_lower(c: char) -> char {
    if 'A' <= c && c <= 'Z' {
        ((c as u32) + 32) as char
    } else {
        c
    }
}

/// Whether a command printed `true`, ignoring surrounding whitespace and
/// ASCII case.
pub open spec fn says_true(output: Seq<char>) -> bool {
    let t = trim(output);
    t.len() == 4 && ascii_lower(t[0]) == 't' && ascii_lower(t[1]) == 'r' && ascii_lower(t[2]) == 'u'
        && ascii_lower(t[3]) == 'e'
}

fn lower_is(c: char, lower: char) -> (r: bool)
    requires
        'a' <= lower && lower <= 'z',
    ensures
        r == (ascii_lower(c) == lower),
{
    c == lower || (c as u32) + 32 == lower as u32
}

/// Whether a command printed `true` (in any ASCII case), as the yes/no
/// PowerShell queries do.
pub fn answer_is_true(output: &str) -> (r: bool)
    ensures
        r == says_true(output@),
{
    let t = trimmed_string(output);
    if t.as_str().unicode_len() != 4 {
        return false;
    }
    let s = t.as_str();
    lower_is(s.get_char(0), 't') && lower_is(s.get_char(1), 'r') && lower_is(s.get_char(2), 'u')
        && lower_is(s.get_char(3), 'e')
}

} // verus!
