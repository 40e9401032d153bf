//! Reading the value out of a `label: value` line of the handshake.
use vstd::prelude::*;

verus! {

/// The characters of `s` before its first `':'`, all of `s` when it has none.
pub open spec fn before_colon(s: Seq<char>) -> Seq<char>
    decreases s.len(),
{
    if s.len() == 0 {
        s
    } else if s[0] == ':' {
        Seq::empty()
    } else {
        seq![s[0]] + before_colon(s.drop_first())
    }
}

/// The characters of `s` after its first `':'`, or `None` when it has none.
pub open spec fn after_colon(s: Seq<char>) -> Option<Seq<char>>
    decreases s.len(),
{
    if s.len() == 0 {
        None
    } else if s[0] == ':' {
        Some(s.drop_first())
    } else {
        after_colon(s.drop_first())
    }
}

/// The second of the `':'`-separated fields of `s`, or `None` when `s` has
/// no `':'`.
pub open spec fn second_field(s: Seq<char>) -> Option<Seq<char>> {
    match after_colon(s) {
        None => None,
        Some(rest) => Some(before_colon(rest)),
    }
}

/// `s` without its leading and trailing white space.
pub uninterp spec fn trim_of(s: Seq<char>) -> Seq<char>;

/// Relies on `str::split_once`: the text before the first `':'` and the text
/// after it, or `None` when there is no `':'`.
#[verifier::external_body]
fn split_at_colon<'a>(s: &'a str) -> (r: Option<(&'a str, &'a str)>)
    ensures
        r is None <==> after_colon(s@) is None,
        r matches Some(p) ==> p.0@ == before_colon(s@) && after_colon(s@) == Some(p.1@),
{
    s.split_once(':')
}

/// Relies on `str::trim`: the text without leading and trailing white space,
/// which depends on the text alone.
#[verifier::external_body]
fn trim<'a>(s: &'a str) -> (r: &'a str)
    ensures
        r@ == trim_of(s@),
{
    s.trim()
}

/// The value of a `label: value` line: the text between its first and second
/// `':'` (or the end), trimmed; `None` when the line has no `':'`.
pub fn get_line(line: &str) -> (r: Option<String>)
    ensures
        r is None <==> second_field(line@) is None,
        r matches Some(v) ==> v@ == trim_of(second_field(line@)->Some_0),
{
    match split_at_colon(line) {
        None => None,
        Some((_, rest)) => {
            let field = match split_at_colon(rest) {
                None => {
                    proof {
                        lemma_no_colon(rest@);
                    }
                    rest
                },
                Some((f, _)) => f,
            };
            Some(trim(field).to_owned())
        },
    }
}

/// Text with no `':'` is its own first field.
proof fn lemma_no_colon(s: Seq<char>)
    requires
        after_colon(s) is None,
    ensures
        before_colon(s) == s,
    decreases s.len(),
{
    if s.len() > 0 {
        lemma_no_colon(s.drop_first());
        assert(seq![s[0]] + s.drop_first() =~= s);
    }
}

} // verus!
