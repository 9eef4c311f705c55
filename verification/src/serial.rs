//! A canonical textual form for host trees.
//!
//! The form is JSON-shaped: `null`, `true`/`false`, decimal integers,
//! quoted text and keys with `"` and `\` escaped by a backslash, `[..]`
//! lists and `{..}` dictionaries. A float is emitted as `f` followed by
//! its bit pattern in decimal (verified code carries floats as bits), and
//! control characters are left unescaped, so the form is canonical — equal
//! trees give equal text — rather than a full JSON encoder. Since a
//! dictionary's keys are already sorted, two conversions of the same
//! logical tree serialize to identical text.

use vstd::prelude::*;

use crate::value::HostValue;

verus! {

/// The decimal digit characters of `n`, most significant first.
pub open spec fn dec_digits(n: nat) -> Seq<char>
    decreases n,
{
    if n < 10 {
        seq![digit_char(n)]
    } else {
        dec_digits(n / 10) + seq![digit_char(n % 10)]
    }
}

/// One decimal digit as its character.
pub open spec fn digit_char(d: nat) -> char {
    if d == 0 {
        '0'
    } else if d == 1 {
        '1'
    } else if d == 2 {
        '2'
    } else if d == 3 {
        '3'
    } else if d == 4 {
        '4'
    } else if d == 5 {
        '5'
    } else if d == 6 {
        '6'
    } else if d == 7 {
        '7'
    } else if d == 8 {
        '8'
    } else {
        '9'
    }
}

/// Text with every quote and backslash preceded by a backslash, as the
/// quoted form requires.
pub open spec fn escaped(s: Seq<char>) -> Seq<char>
    decreases s.len(),
{
    if s.len() == 0 {
        s
    } else if s[0] == '"' || s[0] == '\\' {
        seq!['\\', s[0]] + escaped(s.skip(1))
    } else {
        seq![s[0]] + escaped(s.skip(1))
    }
}

/// A signed integer in decimal, with a leading minus sign when negative.
pub open spec fn dec_int(i: int) -> Seq<char> {
    if i < 0 {
        seq!['-'] + dec_digits((-i) as nat)
    } else {
        dec_digits(i as nat)
    }
}

/// The canonical text of a host tree.
pub open spec fn canon(h: HostValue) -> Seq<char>
    decreases h, 0nat,
{
    match h {
        HostValue::Null => "null"@,
        HostValue::Bool(b) => if b {
            "true"@
        } else {
            "false"@
        },
        HostValue::UInt(u) => dec_digits(u as nat),
        HostValue::Int(i) => dec_int(i as int),
        HostValue::FloatBits(bits) => seq!['f'] + dec_digits(bits as nat),
        HostValue::Text(s) => seq!['"'] + escaped(s@) + seq!['"'],
        HostValue::List(xs) => seq!['['] + canon_items(xs@) + seq![']'],
        HostValue::Dict(ps) => seq!['{'] + canon_entries(ps@) + seq!['}'],
    }
}

/// The members of a list, comma-separated.
pub open spec fn canon_items(xs: Seq<HostValue>) -> Seq<char>
    decreases xs, 1nat,
{
    if xs.len() == 0 {
        Seq::empty()
    } else if xs.len() == 1 {
        canon(xs[0])
    } else {
        canon(xs[0]) + seq![','] + canon_items(xs.skip(1))
    }
}

/// The entries of a dictionary, comma-separated, each a quoted key, a
/// colon, and the value.
pub open spec fn canon_entries(ps: Seq<(String, HostValue)>) -> Seq<char>
    decreases ps, 1nat,
{
    if ps.len() == 0 {
        Seq::empty()
    } else if ps.len() == 1 {
        canon_entry(ps[0])
    } else {
        canon_entry(ps[0]) + seq![','] + canon_entries(ps.skip(1))
    }
}

/// One dictionary entry.
pub open spec fn canon_entry(p: (String, HostValue)) -> Seq<char>
    decreases p, 2nat,
{
    seq!['"'] + escaped(p.0@) + seq!['"', ':'] + canon(p.1)
}

/// Relies on std's String::push: appends the one character.
pub assume_specification[ String::push ](s: &mut String, c: char)
    ensures
        final(s)@ == old(s)@.push(c),
;

/// The escaped form of the text from `start` on.
fn escape_from(s: &str, start: usize) -> (r: String)
    requires
        start <= s@.len(),
    ensures
        r@ == escaped(s@.skip(start as int)),
    decreases s@.len() - start,
{
    if start == s.unicode_len() {
        let r = String::new();
        proof {
            assert(s@.skip(start as int).len() == 0);
            assert(r@ =~= escaped(s@.skip(start as int)));
        }
        r
    } else {
        let c = s.get_char(start);
        let mut r = String::new();
        if c == '"' || c == '\\' {
            r.push('\\');
        }
        r.push(c);
        let rest = escape_from(s, start + 1);
        r.append(rest.as_str());
        proof {
            assert(s@.skip(start as int)[0] == s@[start as int]);
            assert(s@.skip(start as int).skip(1) =~= s@.skip(start as int + 1));
            if c == '"' || c == '\\' {
                assert(r@ =~= seq!['\\', c] + escaped(s@.skip(start as int + 1)));
            } else {
                assert(r@ =~= seq![c] + escaped(s@.skip(start as int + 1)));
            }
        }
        r
    }
}

/// One decimal digit as text.
fn digit_str(d: u64) -> (s: &'static str)
    requires
        d < 10,
    ensures
        s@ == seq![digit_char(d as nat)],
{
    if d == 0 {
        proof { reveal_strlit("0"); assert("0"@ =~= seq!['0']); }
        "0"
    } else if d == 1 {
        proof { reveal_strlit("1"); assert("1"@ =~= seq!['1']); }
        "1"
    } else if d == 2 {
        proof { reveal_strlit("2"); assert("2"@ =~= seq!['2']); }
        "2"
    } else if d == 3 {
        proof { reveal_strlit("3"); assert("3"@ =~= seq!['3']); }
        "3"
    } else if d == 4 {
        proof { reveal_strlit("4"); assert("4"@ =~= seq!['4']); }
        "4"
    } else if d == 5 {
        proof { reveal_strlit("5"); assert("5"@ =~= seq!['5']); }
        "5"
    } else if d == 6 {
        proof { reveal_strlit("6"); assert("6"@ =~= seq!['6']); }
        "6"
    } else if d == 7 {
        proof { reveal_strlit("7"); assert("7"@ =~= seq!['7']); }
        "7"
    } else if d == 8 {
        proof { reveal_strlit("8"); assert("8"@ =~= seq!['8']); }
        "8"
    } else {
        proof { reveal_strlit("9"); assert("9"@ =~= seq!['9']); }
        "9"
    }
}

/// An unsigned integer in decimal.
pub fn u64_text(n: u64) -> (s: String)
    ensures
        s@ == dec_digits(n as nat),
    decreases n,
{
    if n < 10 {
        let s = digit_str(n).to_owned();
        s
    } else {
        let mut s = u64_text(n / 10);
        s.append(digit_str(n % 10));
        proof {
            assert(s@ =~= dec_digits((n / 10) as nat) + seq![digit_char((n % 10) as nat)]);
        }
        s
    }
}

/// A signed integer in decimal.
pub fn i64_text(n: i64) -> (s: String)
    ensures
        s@ == dec_int(n as int),
{
    if n >= 0 {
        u64_text(n as u64)
    } else {
        let magnitude: u64 = (-(n as i128)) as u64;
        let mut s = "-".to_owned();
        let digits = u64_text(magnitude);
        s.append(digits.as_str());
        proof {
            reveal_strlit("-");
            assert("-"@ =~= seq!['-']);
            assert(magnitude as nat == (-(n as int)) as nat);
            assert(s@ =~= seq!['-'] + dec_digits((-(n as int)) as nat));
        }
        s
    }
}

/// The canonical text of a host tree, exactly `canon` of it.
pub fn to_canonical_text(h: &HostValue) -> (s: String)
    ensures
        s@ == canon(*h),
    decreases *h, 0nat,
{
    match h {
        HostValue::Null => "null".to_owned(),
        HostValue::Bool(b) => if *b {
            "true".to_owned()
        } else {
            "false".to_owned()
        },
        HostValue::UInt(u) => u64_text(*u),
        HostValue::Int(i) => i64_text(*i),
        HostValue::FloatBits(bits) => {
            let mut s = "f".to_owned();
            let digits = u64_text(*bits);
            s.append(digits.as_str());
            proof {
                reveal_strlit("f");
                assert("f"@ =~= seq!['f']);
                assert(s@ =~= seq!['f'] + dec_digits(*bits as nat));
            }
            s
        },
        HostValue::Text(t) => {
            let mut s = "\"".to_owned();
            let inner = escape_from(t.as_str(), 0);
            s.append(inner.as_str());
            s.append("\"");
            proof {
                reveal_strlit("\"");
                assert("\""@ =~= seq!['"']);
                assert(t@.skip(0) =~= t@);
                assert(s@ =~= seq!['"'] + escaped(t@) + seq!['"']);
            }
            s
        },
        HostValue::List(xs) => {
            let mut s = "[".to_owned();
            proof {
                assert(decreases_to!(*h => h->List_0));
                assert(h->List_0 == *xs);
                assert(decreases_to!(*xs => xs@));
                assert(xs@.skip(0) =~= xs@);
            }
            let inner = items_text(xs, 0);
            s.append(inner.as_str());
            s.append("]");
            proof {
                reveal_strlit("[");
                reveal_strlit("]");
                assert("["@ =~= seq!['[']);
                assert("]"@ =~= seq![']']);
                assert(xs@.skip(0) =~= xs@);
                assert(s@ =~= seq!['['] + canon_items(xs@) + seq![']']);
            }
            s
        },
        HostValue::Dict(ps) => {
            let mut s = "{".to_owned();
            proof {
                assert(decreases_to!(*h => h->Dict_0));
                assert(h->Dict_0 == *ps);
                assert(decreases_to!(*ps => ps@));
                assert(ps@.skip(0) =~= ps@);
            }
            let inner = entries_text(ps, 0);
            s.append(inner.as_str());
            s.append("}");
            proof {
                reveal_strlit("{");
                reveal_strlit("}");
                assert("{"@ =~= seq!['{']);
                assert("}"@ =~= seq!['}']);
                assert(ps@.skip(0) =~= ps@);
                assert(s@ =~= seq!['{'] + canon_entries(ps@) + seq!['}']);
            }
            s
        },
    }
}

/// The members of a list from `start` on, comma-separated.
fn items_text(xs: &Vec<HostValue>, start: usize) -> (s: String)
    requires
        start <= xs@.len(),
    ensures
        s@ == canon_items(xs@.skip(start as int)),
    decreases xs@.skip(start as int), 1nat,
{
    if start == xs.len() {
        let s = String::new();
        proof {
            assert(xs@.skip(start as int).len() == 0);
            assert(s@ =~= canon_items(xs@.skip(start as int)));
        }
        s
    } else {
        proof {
            assert(xs@.skip(start as int)[0] == xs@[start as int]);
            assert(decreases_to!(xs@.skip(start as int) => xs@.skip(start as int)[0]));
        }
        let mut s = to_canonical_text(&xs[start]);
        if start + 1 < xs.len() {
            s.append(",");
            proof {
                assert(xs@.skip(start as int).subrange(1, xs@.skip(start as int).len() as int)
                    =~= xs@.skip(start as int + 1));
                assert(decreases_to!(xs@.skip(start as int) => xs@.skip(start as int).subrange(
                    1,
                    xs@.skip(start as int).len() as int,
                )));
            }
            let rest = items_text(xs, start + 1);
            s.append(rest.as_str());
            proof {
                reveal_strlit(",");
                assert(","@ =~= seq![',']);
                assert(xs@.skip(start as int).skip(1) =~= xs@.skip(start as int + 1));
                assert(s@ =~= canon(xs@[start as int]) + seq![','] + canon_items(
                    xs@.skip(start as int + 1),
                ));
            }
        } else {
            proof {
                assert(xs@.skip(start as int).len() == 1);
            }
        }
        s
    }
}

/// The entries of a dictionary from `start` on, comma-separated.
fn entries_text(ps: &Vec<(String, HostValue)>, start: usize) -> (s: String)
    requires
        start <= ps@.len(),
    ensures
        s@ == canon_entries(ps@.skip(start as int)),
    decreases ps@.skip(start as int), 1nat,
{
    if start == ps.len() {
        let s = String::new();
        proof {
            assert(ps@.skip(start as int).len() == 0);
            assert(s@ =~= canon_entries(ps@.skip(start as int)));
        }
        s
    } else {
        let mut s = "\"".to_owned();
        let key_text = escape_from(ps[start].0.as_str(), 0);
        s.append(key_text.as_str());
        s.append("\":");
        proof {
            assert(ps@[start as int].0@.skip(0) =~= ps@[start as int].0@);
            assert(ps@.skip(start as int)[0] == ps@[start as int]);
            assert(decreases_to!(ps@.skip(start as int) => ps@.skip(start as int)[0]));
            assert(decreases_to!(ps@.skip(start as int)[0] => ps@.skip(start as int)[0].1));
        }
        let value = to_canonical_text(&ps[start].1);
        s.append(value.as_str());
        proof {
            reveal_strlit("\"");
            reveal_strlit("\":");
            assert("\""@ =~= seq!['"']);
            assert("\":"@ =~= seq!['"', ':']);
            assert(s@ =~= canon_entry(ps@[start as int]));
        }
        if start + 1 < ps.len() {
            s.append(",");
            proof {
                assert(ps@.skip(start as int).subrange(1, ps@.skip(start as int).len() as int)
                    =~= ps@.skip(start as int + 1));
                assert(decreases_to!(ps@.skip(start as int) => ps@.skip(start as int).subrange(
                    1,
                    ps@.skip(start as int).len() as int,
                )));
            }
            let rest = entries_text(ps, start + 1);
            s.append(rest.as_str());
            proof {
                reveal_strlit(",");
                assert(","@ =~= seq![',']);
                assert(ps@.skip(start as int).skip(1) =~= ps@.skip(start as int + 1));
                assert(s@ =~= canon_entry(ps@[start as int]) + seq![','] + canon_entries(
                    ps@.skip(start as int + 1),
                ));
            }
        } else {
            proof {
                assert(ps@.skip(start as int).len() == 1);
            }
        }
        s
    }
}

} // verus!
