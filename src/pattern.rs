use vstd::prelude::*;

use crate::text::{chars_of, push_str_chars};

verus! {

/// The pattern text that matches exactly the character `c`: a one-member
/// character class, with a backslash before the class metacharacters.
pub open spec fn escape_char(c: char) -> Seq<char> {
    if c == '^' || c == '\\' || c == '[' || c == ']' {
        seq!['[', '\\', c, ']']
    } else {
        seq!['[', c, ']']
    }
}

/// Every character of `s` escaped in turn: a pattern that matches `s` literally.
pub open spec fn escaped(s: Seq<char>) -> Seq<char>
    decreases s.len(),
{
    if s.len() == 0 {
        Seq::empty()
    } else {
        escaped(s.drop_last()) + escape_char(s.last())
    }
}

/// Every character of `s` escaped, with any run of characters allowed between
/// two neighbours: a pattern for "these characters, in order, gaps allowed".
pub open spec fn spread(s: Seq<char>) -> Seq<char>
    decreases s.len(),
{
    if s.len() == 0 {
        Seq::empty()
    } else if s.len() == 1 {
        escape_char(s[0])
    } else {
        spread(s.drop_last()) + seq!['.', '*'] + escape_char(s.last())
    }
}

/// `body` anchored at the start of the name, followed by anything; `.` is
/// put in the mode where it matches every character, line breaks included.
pub open spec fn anchored(body: Seq<char>) -> Seq<char> {
    seq!['(', '?', 's', ')', '^'] + body + seq!['.', '*', '$']
}

/// The prefix tier: the name starts with the token, after an optional hidden
/// marker when hidden entries are admitted.
pub open spec fn prefix_body(token: Seq<char>, ignore_dot: bool) -> Seq<char> {
    if ignore_dot {
        seq!['[', '.', ']', '?'] + escaped(token)
    } else {
        escaped(token)
    }
}

/// What must stand before the rest of the token in the substring tier: a
/// hidden marker where the token starts with one, anything where hidden
/// entries are admitted, else a first character that is not the hidden marker
/// (a match at the very start is the prefix tier's).
pub open spec fn lead(token: Seq<char>, ignore_dot: bool) -> Seq<char> {
    if token.len() > 0 && token[0] == '.' {
        seq!['[', '.', ']', '.', '*']
    } else if ignore_dot {
        seq!['.', '*']
    } else {
        seq!['[', '^', '.', ']', '.', '*']
    }
}

/// What must stand before the rest of the token in the semi-fuzzy tier: as in
/// `lead`, but where hidden entries are not admitted the name's first
/// character is checked without being consumed, so that the spread token may
/// start there.
pub open spec fn fuzzy_lead(token: Seq<char>, ignore_dot: bool) -> Seq<char> {
    if token.len() > 0 && token[0] == '.' {
        seq!['[', '.', ']', '.', '*']
    } else if ignore_dot {
        seq!['.', '*']
    } else {
        seq!['(', '?', ':', '[', '^', '.', ']', '.', '*', ')', '?']
    }
}

/// The part of the token that follows `lead` or `fuzzy_lead`.
pub open spec fn rest(token: Seq<char>) -> Seq<char> {
    if token.len() > 0 && token[0] == '.' {
        token.drop_first()
    } else {
        token
    }
}

/// The substring tier: the token anywhere in the name.
pub open spec fn substring_body(token: Seq<char>, ignore_dot: bool) -> Seq<char> {
    lead(token, ignore_dot) + escaped(rest(token))
}

/// The semi-fuzzy tier: the token's characters in order, gaps allowed.
pub open spec fn semi_fuzzy_body(token: Seq<char>, ignore_dot: bool) -> Seq<char> {
    fuzzy_lead(token, ignore_dot) + spread(rest(token))
}

fn push_escaped(out: &mut String, c: char)
    ensures
        final(out)@ == old(out)@ + escape_char(c),
{
    if c == '^' || c == '\\' || c == '[' || c == ']' {
        push_str_chars(out, &['[', '\\', c, ']']);
    } else {
        push_str_chars(out, &['[', c, ']']);
    }
}

/// Appends the characters of `t` from `from` on, escaped; with `gaps`, a
/// wildcard run stands between each two of them.
fn push_escaped_from(out: &mut String, t: &Vec<char>, from: usize, gaps: bool)
    requires
        from <= t@.len(),
    ensures
        final(out)@ == old(out)@ + if gaps {
            spread(t@.subrange(from as int, t@.len() as int))
        } else {
            escaped(t@.subrange(from as int, t@.len() as int))
        },
{
    let mut k: usize = from;
    assert(t@.subrange(from as int, from as int).len() == 0);
    while k < t.len()
        invariant
            from <= k <= t@.len(),
            out@ == old(out)@ + if gaps {
                spread(t@.subrange(from as int, k as int))
            } else {
                escaped(t@.subrange(from as int, k as int))
            },
        decreases t@.len() - k,
    {
        let ghost done = t@.subrange(from as int, k as int);
        let ghost more = t@.subrange(from as int, k + 1);
        assert(more.drop_last() =~= done);
        assert(more.last() == t@[k as int]);
        if gaps && k > from {
            push_str_chars(out, &['.', '*']);
        }
        push_escaped(out, t[k]);
        proof {
            if gaps && k == from {
                assert(more.len() == 1);
                assert(more[0] == t@[k as int]);
            }
        }
        assert(out@ =~= old(out)@ + if gaps {
            spread(more)
        } else {
            escaped(more)
        });
        k = k + 1;
    }
}

/// Escapes `input` so that, read as a pattern, it matches itself literally:
/// each character becomes a one-member character class, and `^`, `\`, `[` and
/// `]` are backslash-escaped inside theirs.
pub fn regex_escape(input: &str) -> (r: String)
    ensures
        r@ == escaped(input@),
{
    let t = chars_of(input);
    let mut out = String::new();
    push_escaped_from(&mut out, &t, 0, false);
    assert(t@.subrange(0, t@.len() as int) =~= t@);
    out
}

/// The anchored pattern of `body`, with `before` put ahead of the escaped
/// token characters from `from` on.
fn anchored_pattern(before: &[char], t: &Vec<char>, from: usize, gaps: bool) -> (r: String)
    requires
        from <= t@.len(),
    ensures
        r@ == anchored(before@ + if gaps {
            spread(t@.subrange(from as int, t@.len() as int))
        } else {
            escaped(t@.subrange(from as int, t@.len() as int))
        }),
{
    let mut out = String::new();
    push_str_chars(&mut out, &['(', '?', 's', ')', '^']);
    push_str_chars(&mut out, before);
    push_escaped_from(&mut out, t, from, gaps);
    push_str_chars(&mut out, &['.', '*', '$']);
    let ghost tail = if gaps {
        spread(t@.subrange(from as int, t@.len() as int))
    } else {
        escaped(t@.subrange(from as int, t@.len() as int))
    };
    assert(out@ =~= anchored(before@ + tail));
    out
}

/// The anchored pattern of the prefix tier.
pub fn prefix_pattern(token: &Vec<char>, ignore_dot: bool) -> (r: String)
    ensures
        r@ == anchored(prefix_body(token@, ignore_dot)),
{
    assert(token@.subrange(0, token@.len() as int) =~= token@);
    if ignore_dot {
        anchored_pattern(&['[', '.', ']', '?'], token, 0, false)
    } else {
        let r = anchored_pattern(&[], token, 0, false);
        assert(Seq::<char>::empty() + escaped(token@) =~= escaped(token@));
        r
    }
}

/// The anchored pattern of the substring tier (`gaps` false) or of the
/// semi-fuzzy tier (`gaps` true).
pub fn loose_pattern(token: &Vec<char>, ignore_dot: bool, gaps: bool) -> (r: String)
    ensures
        r@ == anchored(if gaps {
            semi_fuzzy_body(token@, ignore_dot)
        } else {
            substring_body(token@, ignore_dot)
        }),
{
    if token.len() > 0 && token[0] == '.' {
        assert(token@.subrange(1, token@.len() as int) =~= token@.drop_first());
        anchored_pattern(&['[', '.', ']', '.', '*'], token, 1, gaps)
    } else {
        assert(token@.subrange(0, token@.len() as int) =~= token@);
        if ignore_dot {
            anchored_pattern(&['.', '*'], token, 0, gaps)
        } else if gaps {
            anchored_pattern(&['(', '?', ':', '[', '^', '.', ']', '.', '*', ')', '?'], token, 0, gaps)
        } else {
            anchored_pattern(&['[', '^', '.', ']', '.', '*'], token, 0, gaps)
        }
    }
}

} // verus!
