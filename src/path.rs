use vstd::prelude::*;
use vstd::string::*;

use crate::text::{chars_of, push_char, push_range};

verus! {

/// Splits a typed path at its last `/`: the base keeps everything up to and
/// including that separator, the search term is what follows. Without a
/// separator the base is empty and the search term is the whole input.
pub fn parse_path(input_path: &str) -> (r: (String, String))
    ensures
        r.0@ + r.1@ == input_path@,
        !r.1@.contains('/'),
        r.0@.len() == 0 || r.0@.last() == '/',
{
    let s = chars_of(input_path);
    let mut cut: usize = s.len();
    while cut > 0 && s[cut - 1] != '/'
        invariant
            cut <= s@.len(),
            forall|i: int| cut <= i < s@.len() ==> s@[i] != '/',
        decreases cut,
    {
        cut = cut - 1;
    }
    let mut base = String::new();
    let mut search = String::new();
    push_range(&mut base, s.as_slice(), 0, cut);
    push_range(&mut search, s.as_slice(), cut, s.len());
    assert(s@.subrange(0, s@.len() as int) =~= s@);
    assert(base@ + search@ =~= input_path@);
    assert(!search@.contains('/')) by {
        if search@.contains('/') {
            let i = choose|i: int| 0 <= i < search@.len() && search@[i] == '/';
            assert(s@[cut + i] == '/');
        }
    }
    (base, search)
}

/// Characters a POSIX shell reads as themselves, outside any quoting.
pub open spec fn is_shell_safe(c: char) -> bool {
    ('a' <= c && c <= 'z') || ('A' <= c && c <= 'Z') || ('0' <= c && c <= '9') || c == '-' || c
        == '_' || c == '=' || c == '/' || c == ',' || c == '.' || c == '+'
}

/// One character inside single quotes: `'` and `!` close the quotes, are
/// backslash-escaped, and reopen them.
pub open spec fn quote_char(c: char) -> Seq<char> {
    if c == '\'' || c == '!' {
        seq!['\'', '\\', c, '\'']
    } else {
        seq![c]
    }
}

pub open spec fn quoted_body(s: Seq<char>) -> Seq<char>
    decreases s.len(),
{
    if s.len() == 0 {
        Seq::empty()
    } else {
        quoted_body(s.drop_last()) + quote_char(s.last())
    }
}

/// `s` as a shell word: unchanged where it is non-empty and every character is
/// safe, else single-quoted.
pub open spec fn shell_quoted(s: Seq<char>) -> Seq<char> {
    if s.len() > 0 && forall|i: int| 0 <= i < s.len() ==> is_shell_safe(#[trigger] s[i]) {
        s
    } else {
        seq!['\''] + quoted_body(s) + seq!['\'']
    }
}

/// Relies on `shell_escape::unix::escape`: a non-empty word of safe characters
/// is returned as it is; any other is put in single quotes, each `'` and `!`
/// becoming `'\'` or `'\!` followed by `'`.
#[verifier::external_body]
fn shell_escape_word(s: &str) -> (r: String)
    ensures
        r@ == shell_quoted(s@),
{
    shell_escape::unix::escape(std::borrow::Cow::Borrowed(s)).into_owned()
}

/// The completed path: `base` (which ends in `/` where it is not empty), the
/// chosen directory name quoted for the shell, and a closing `/`.
pub fn format_result(base: &str, result: &str) -> (r: String)
    ensures
        r@ == base@ + shell_quoted(result@) + seq!['/'],
{
    let quoted = shell_escape_word(result);
    let mut out = String::from_str(base);
    out.append(quoted.as_str());
    push_char(&mut out, '/');
    out
}

} // verus!
