use vstd::prelude::*;
use crate::chars::{chars_of, string_from_chars};
use crate::digits::{
    dec_str, digit_val, int_json, is_digit_char, lemma_dec_str_len, lemma_dec_str_shape,
    lemma_num_val_dec_str, lemma_pow10_10, lemma_pow10_mono, num_val, pow10,
};
use crate::responses::{Joke, JokeV, SearchResponse, SearchResponseV, SuccessfulResponse,
    SuccessfulResponseV};
use crate::wire::{in_i32_range, joke_json, joke_wf, jokes_items, jokes_json, jokes_wf, plain_char,
    plain_str, search_json, search_wf, str_json, succ_json, succ_wf};

verus! {

/// Whether `lit` stands verbatim in `s` at position `pos`.
pub open spec fn lit_at(s: Seq<char>, pos: int, lit: Seq<char>) -> bool {
    0 <= pos && pos + lit.len() <= s.len() && s.subrange(pos, pos + lit.len()) == lit
}

/// A match of a concatenation splits into matches of the two halves.
pub proof fn lemma_lit_at_split(s: Seq<char>, pos: int, a: Seq<char>, b: Seq<char>)
    requires
        lit_at(s, pos, a + b),
    ensures
        lit_at(s, pos, a),
        lit_at(s, pos + a.len(), b),
{
    let whole = s.subrange(pos, pos + a.len() + b.len());
    assert(s.subrange(pos, pos + a.len()) =~= whole.subrange(0, a.len() as int));
    assert(whole.subrange(0, a.len() as int) =~= a);
    assert(s.subrange(pos + a.len(), pos + a.len() + b.len()) =~= whole.subrange(
        a.len() as int,
        (a.len() + b.len()) as int,
    ));
    assert(whole.subrange(a.len() as int, (a.len() + b.len()) as int) =~= b);
}

/// Matches of two adjacent pieces combine into a match of their
/// concatenation.
pub proof fn lemma_lit_at_combine(s: Seq<char>, pos: int, a: Seq<char>, b: Seq<char>)
    requires
        lit_at(s, pos, a),
        lit_at(s, pos + a.len(), b),
    ensures
        lit_at(s, pos, a + b),
{
    assert(s.subrange(pos, pos + a.len() + b.len()) =~= a + b);
}

/// Consumes the exact characters of `lit` at `pos`, or reports that they
/// do not stand there.
fn expect_lit(s: &Vec<char>, pos: usize, lit: &Vec<char>) -> (r: Option<usize>)
    requires
        pos <= s@.len(),
    ensures
        r matches Some(p2) ==> p2 == pos + lit@.len() && lit_at(s@, pos as int, lit@),
        r is None ==> !lit_at(s@, pos as int, lit@),
{
    if s.len() - pos < lit.len() {
        return None;
    }
    let mut i: usize = 0;
    while i < lit.len()
        invariant
            pos + lit@.len() <= s@.len(),
            s@.len() <= usize::MAX,
            i <= lit@.len(),
            forall|k: int| 0 <= k < i ==> s@[pos + k] == lit@[k],
        decreases lit@.len() - i,
    {
        assert(pos + i < s@.len());
        if s[pos + i] != lit[i] {
            proof {
                if lit_at(s@, pos as int, lit@) {
                    assert(s@.subrange(pos as int, pos + lit@.len())[i as int] == lit@[i as int]);
                }
            }
            return None;
        }
        i = i + 1;
    }
    proof {
        assert(s@.subrange(pos as int, pos + lit@.len()) =~= lit@);
    }
    Some(pos + lit.len())
}

/// Whether the wire form of the (plain) string value `v` stands at `pos`.
pub open spec fn str_at(s: Seq<char>, pos: int, v: Seq<char>) -> bool {
    plain_str(v) && lit_at(s, pos, str_json(v))
}

/// Reads a string value at `pos`: an opening quote, verbatim characters,
/// a closing quote. Succeeds exactly on the wire form of a plain string.
fn parse_string(s: &Vec<char>, pos: usize) -> (r: Option<(Vec<char>, usize)>)
    requires
        pos <= s@.len(),
    ensures
        r matches Some(x) ==> pos < x.1 <= s@.len() && plain_str(x.0@) && lit_at(
            s@,
            pos as int,
            str_json(x.0@),
        ) && x.1 == pos + str_json(x.0@).len(),
        forall|v: Seq<char>|
            str_at(s@, pos as int, v) ==> (r matches Some(x) && x.0@ == v && x.1 == pos + str_json(
                v,
            ).len()),
{
    if pos >= s.len() || s[pos] != '"' {
        proof {
            assert forall|v: Seq<char>| str_at(s@, pos as int, v) implies false by {
                assert(s@.subrange(pos as int, pos + str_json(v).len())[0] == str_json(v)[0]);
                assert(str_json(v)[0] == '"');
            }
        }
        return None;
    }
    let mut i: usize = pos + 1;
    let mut out: Vec<char> = Vec::new();
    loop
        invariant
            pos < s@.len(),
            s@[pos as int] == '"',
            pos + 1 <= i <= s@.len(),
            out@.len() == i - pos - 1,
            out@ == s@.subrange(pos + 1, i as int),
            plain_str(out@),
        decreases s@.len() - i,
    {
        proof {
            assert forall|v: Seq<char>| str_at(s@, pos as int, v) implies i <= pos + 1 + v.len()
            by {
                if i > pos + 1 + v.len() {
                    let q = pos + 1 + v.len();
                    assert(s@.subrange(pos as int, pos + str_json(v).len())[v.len() as int + 1]
                        == str_json(v)[v.len() as int + 1]);
                    assert(s@[q] == '"');
                    assert(out@[q - pos - 1] == s@[q]);
                    assert(plain_char(out@[q - pos - 1]));
                }
            }
        }
        if i >= s.len() {
            proof {
                assert forall|v: Seq<char>| str_at(s@, pos as int, v) implies false by {
                    assert(pos + str_json(v).len() <= s@.len());
                    assert(i <= pos + 1 + v.len());
                }
            }
            return None;
        }
        let c = s[i];
        proof {
            assert forall|v: Seq<char>|
                str_at(s@, pos as int, v) && i < pos + 1 + v.len() implies s@[i as int] == v[i - pos
                - 1] && plain_char(s@[i as int]) by {
                assert(s@.subrange(pos as int, pos + str_json(v).len())[i - pos] == str_json(v)[i
                    - pos]);
                assert(str_json(v)[i - pos] == v[i - pos - 1]);
            }
            assert forall|v: Seq<char>|
                str_at(s@, pos as int, v) && i == pos + 1 + v.len() implies s@[i as int] == '"' by {
                assert(s@.subrange(pos as int, pos + str_json(v).len())[v.len() as int + 1] == str_json(
                    v,
                )[v.len() as int + 1]);
            }
        }
        if c == '"' {
            proof {
                assert(s@.subrange(pos as int, i + 1) =~= str_json(out@));
                assert forall|v: Seq<char>| str_at(s@, pos as int, v) implies out@ == v && i + 1
                    == pos + str_json(v).len() by {
                    if i < pos + 1 + v.len() {
                        assert(plain_char(s@[i as int]));
                    }
                    assert(i == pos + 1 + v.len());
                    assert(out@ =~= v) by {
                        assert(s@.subrange(pos as int, pos + str_json(v).len()).subrange(
                            1,
                            1 + v.len() as int,
                        ) =~= v);
                        assert(s@.subrange(pos + 1, i as int) =~= s@.subrange(
                            pos as int,
                            pos + str_json(v).len(),
                        ).subrange(1, 1 + v.len() as int));
                    }
                }
            }
            return Some((out, i + 1));
        }
        if c == '\\' || c == '\n' || c == '\t' || c == '\r' {
            proof {
                assert forall|v: Seq<char>| str_at(s@, pos as int, v) implies false by {
                    if i < pos + 1 + v.len() {
                        assert(plain_char(s@[i as int]));
                    } else {
                        assert(s@[i as int] == '"');
                    }
                }
            }
            return None;
        }
        out.push(c);
        proof {
            assert(out@ =~= s@.subrange(pos + 1, i + 1));
        }
        i = i + 1;
    }
}

/// The numeric value of a digit character, or nothing on any other
/// character.
fn digit_value(c: char) -> (r: Option<u64>)
    ensures
        r matches Some(d) ==> is_digit_char(c) && d == digit_val(c) && d < 10,
        r is None ==> !is_digit_char(c),
{
    if c == '0' {
        Some(0)
    } else if c == '1' {
        Some(1)
    } else if c == '2' {
        Some(2)
    } else if c == '3' {
        Some(3)
    } else if c == '4' {
        Some(4)
    } else if c == '5' {
        Some(5)
    } else if c == '6' {
        Some(6)
    } else if c == '7' {
        Some(7)
    } else if c == '8' {
        Some(8)
    } else if c == '9' {
        Some(9)
    } else {
        None
    }
}

/// Whether the wire form of the integer `v` stands at `pos`.
pub open spec fn int_at(s: Seq<char>, pos: int, v: int) -> bool {
    in_i32_range(v) && lit_at(s, pos, int_json(v))
}

/// Whether nothing that could extend the digits of `v` follows its wire
/// form at `pos`: the next character, if any, is no digit.
pub open spec fn int_ends_at(s: Seq<char>, pos: int, v: int) -> bool {
    pos + int_json(v).len() == s.len() || !is_digit_char(s[pos + int_json(v).len()])
}

/// Reads an integer value at `pos`: an optional minus sign and a maximal
/// run of digits. Succeeds exactly on the wire form of a 32-bit value
/// (plain decimal, no leading zeros, no minus zero) followed by a
/// non-digit.
fn parse_int(s: &Vec<char>, pos: usize) -> (r: Option<(i32, usize)>)
    requires
        pos <= s@.len(),
    ensures
        r matches Some(x) ==> pos < x.1 <= s@.len() && lit_at(s@, pos as int, int_json(x.0 as int))
            && x.1 == pos + int_json(x.0 as int).len(),
        forall|v: int|
            int_at(s@, pos as int, v) && int_ends_at(s@, pos as int, v) ==> (r matches Some(x)
                && x.0 as int == v && x.1 == pos + int_json(v).len()),
{
    proof {
        lemma_pow10_10();
        assert forall|v: int| int_at(s@, pos as int, v) implies ({
            let m: nat = if v < 0 { (-v) as nat } else { v as nat };
            let ds: int = if v < 0 { pos + 1 } else { pos as int };
            &&& pos < s@.len()
            &&& (v < 0 ==> s@[pos as int] == '-')
            &&& (v >= 0 ==> is_digit_char(s@[pos as int]) && s@[pos as int] != '-')
            &&& lit_at(s@, ds, dec_str(m))
            &&& dec_str(m).len() <= 10
        }) by {
            let m: nat = if v < 0 { (-v) as nat } else { v as nat };
            lemma_dec_str_shape(m);
            lemma_dec_str_len(m, 10);
            if v < 0 {
                assert(int_json(v) == seq!['-'] + dec_str(m));
                lemma_lit_at_split(s@, pos as int, seq!['-'], dec_str(m));
                assert(s@.subrange(pos as int, pos + 1)[0] == seq!['-'][0]);
            } else {
                assert(int_json(v) == dec_str(m));
                assert(s@.subrange(pos as int, pos + dec_str(m).len())[0] == dec_str(m)[0]);
                assert(is_digit_char(dec_str(m)[0]));
            }
        }
    }
    let neg: bool;
    let dstart: usize;
    if pos < s.len() && s[pos] == '-' {
        neg = true;
        dstart = pos + 1;
    } else {
        neg = false;
        dstart = pos;
    }
    // Scan the maximal digit run from dstart.
    let mut i: usize = dstart;
    loop
        invariant
            pos <= dstart <= i <= s@.len(),
            s@.len() <= usize::MAX,
            dstart <= pos + 1,
            forall|k: int| dstart <= k < i ==> is_digit_char(#[trigger] s@[k]),
        ensures
            pos <= dstart <= i <= s@.len(),
            forall|k: int| dstart <= k < i ==> is_digit_char(#[trigger] s@[k]),
            i == s@.len() || !is_digit_char(s@[i as int]),
        decreases s@.len() - i,
    {
        if i >= s.len() {
            break ;
        }
        if digit_value(s[i]).is_none() {
            break ;
        }
        i = i + 1;
    }
    proof {
        assert(i == s@.len() || !is_digit_char(s@[i as int]));
        assert forall|v: int|
            int_at(s@, pos as int, v) && int_ends_at(s@, pos as int, v) && ((v < 0 && neg) || (v
                >= 0 && !neg)) implies ({
            let m: nat = if v < 0 { (-v) as nat } else { v as nat };
            i == dstart + dec_str(m).len() && s@.subrange(dstart as int, i as int) == dec_str(m)
        }) by {
            let m: nat = if v < 0 { (-v) as nat } else { v as nat };
            let ds: int = dstart as int;
            let e: int = ds + dec_str(m).len();
            lemma_dec_str_shape(m);
            assert(e == pos + int_json(v).len());
            if i < e {
                assert(s@.subrange(ds, e)[i - ds] == dec_str(m)[i - ds]);
                assert(is_digit_char(s@[i as int]));
                assert(false);
            }
            if i > e {
                assert(is_digit_char(s@[e]));
                assert(false);
            }
        }
    }
    if i == dstart {
        proof {
            assert forall|v: int|
                int_at(s@, pos as int, v) && int_ends_at(s@, pos as int, v) implies false by {
                let m: nat = if v < 0 { (-v) as nat } else { v as nat };
                lemma_dec_str_shape(m);
                if v < 0 {
                    assert(s@[pos as int] == '-');
                }
            }
        }
        return None;
    }
    if i - dstart > 10 {
        return None;
    }
    // Accumulate the digit run.
    let mut a: u64 = 0;
    let mut j: usize = dstart;
    while j < i
        invariant
            dstart <= j <= i <= s@.len(),
            s@.len() <= usize::MAX,
            i - dstart <= 10,
            forall|k: int| dstart <= k < i ==> is_digit_char(#[trigger] s@[k]),
            a == num_val(s@.subrange(dstart as int, j as int)),
            a < pow10((j - dstart) as nat),
        decreases i - j,
    {
        let d = match digit_value(s[j]) {
            Some(d) => d,
            None => {
                proof {
                    assert(false);
                }
                return None;
            },
        };
        proof {
            let k: nat = (j - dstart) as nat;
            lemma_pow10_mono(k, 9);
            lemma_pow10_10();
            assert(pow10(9nat) == 1000000000) by {
                assert(pow10(0nat) == 1);
                assert(pow10(1nat) == 10);
                assert(pow10(2nat) == 100);
                assert(pow10(3nat) == 1000);
                assert(pow10(4nat) == 10000);
                assert(pow10(5nat) == 100000);
                assert(pow10(6nat) == 1000000);
                assert(pow10(7nat) == 10000000);
                assert(pow10(8nat) == 100000000);
                assert(pow10(9nat) == 1000000000);
            }
            assert(a * 10 + d < pow10((k + 1) as nat)) by (nonlinear_arith)
                requires
                    a < pow10(k),
                    d < 10,
                    pow10((k + 1) as nat) == 10 * pow10(k),
            ;
            assert(pow10((k + 1) as nat) <= pow10(10nat)) by {
                lemma_pow10_mono((k + 1) as nat, 10nat);
            }
        }
        let d2: u64 = a * 10 + d;
        proof {
            let sub1 = s@.subrange(dstart as int, j + 1);
            assert(sub1.drop_last() =~= s@.subrange(dstart as int, j as int));
            assert(sub1.last() == s@[j as int]);
            assert(num_val(sub1) == a * 10 + d);
        }
        a = d2;
        j = j + 1;
    }
    // The run must be the rendering of its own value: no leading zeros.
    let rendered = crate::digits::dec_string(a);
    let rchars = crate::chars::chars_of(rendered.as_str());
    if rchars.len() != i - dstart {
        proof {
            assert forall|v: int|
                int_at(s@, pos as int, v) && int_ends_at(s@, pos as int, v) implies false by {
                let m: nat = if v < 0 { (-v) as nat } else { v as nat };
                lemma_num_val_dec_str(m);
            }
        }
        return None;
    }
    let ok = match expect_lit(s, dstart, &rchars) {
        Some(_) => true,
        None => false,
    };
    if !ok {
        proof {
            assert forall|v: int|
                int_at(s@, pos as int, v) && int_ends_at(s@, pos as int, v) implies false by {
                let m: nat = if v < 0 { (-v) as nat } else { v as nat };
                lemma_num_val_dec_str(m);
            }
        }
        return None;
    }
    proof {
        // The scanned run is exactly the rendering of `a`.
        assert(s@.subrange(dstart as int, i as int) == dec_str(a as nat));
    }
    if neg {
        if a == 0 || a > 2147483648 {
            proof {
                assert forall|v: int|
                    int_at(s@, pos as int, v) && int_ends_at(s@, pos as int, v) implies false by {
                    let m: nat = if v < 0 { (-v) as nat } else { v as nat };
                    lemma_num_val_dec_str(m);
                    if v >= 0 {
                        lemma_dec_str_shape(m);
                        assert(s@[pos as int] != '-');
                    }
                }
            }
            return None;
        }
        let val64: i64 = -(a as i64);
        let val: i32 = val64 as i32;
        proof {
            assert(val as int == -(a as int));
            assert(s@.subrange(pos as int, i as int) =~= seq!['-'] + dec_str(a as nat));
            assert(int_json(val as int) == seq!['-'] + dec_str(a as nat));
            assert forall|v: int|
                int_at(s@, pos as int, v) && int_ends_at(s@, pos as int, v) implies v == val as int
            by {
                let m: nat = if v < 0 { (-v) as nat } else { v as nat };
                lemma_num_val_dec_str(m);
                if v >= 0 {
                    lemma_dec_str_shape(m);
                    assert(s@[pos as int] != '-');
                }
            }
        }
        Some((val, i))
    } else {
        if a > 2147483647 {
            proof {
                assert forall|v: int|
                    int_at(s@, pos as int, v) && int_ends_at(s@, pos as int, v) implies false by {
                    let m: nat = if v < 0 { (-v) as nat } else { v as nat };
                    lemma_num_val_dec_str(m);
                    if v < 0 {
                        assert(s@[pos as int] == '-');
                        assert(!is_digit_char('-'));
                    }
                }
            }
            return None;
        }
        let val: i32 = a as i32;
        proof {
            assert(int_json(val as int) == dec_str(a as nat));
            assert forall|v: int|
                int_at(s@, pos as int, v) && int_ends_at(s@, pos as int, v) implies v == val as int
            by {
                let m: nat = if v < 0 { (-v) as nat } else { v as nat };
                lemma_num_val_dec_str(m);
                if v < 0 {
                    assert(s@[pos as int] == '-');
                    assert(!is_digit_char('-'));
                }
            }
        }
        Some((val, i))
    }
}

/// Whether the wire form of the joke record `j` stands at `pos`.
pub open spec fn joke_at(s: Seq<char>, pos: int, j: JokeV) -> bool {
    joke_wf(j) && lit_at(s, pos, joke_json(j))
}

/// A joke-record match decomposes into its five pieces, at their offsets.
proof fn lemma_joke_at_pieces(s: Seq<char>, pos: int, j: JokeV)
    requires
        joke_at(s, pos, j),
    ensures
        lit_at(s, pos, "{\"id\":"@),
        str_at(s, pos + "{\"id\":"@.len(), j.id),
        lit_at(s, pos + "{\"id\":"@.len() + str_json(j.id).len(), ",\"joke\":"@),
        str_at(
            s,
            pos + "{\"id\":"@.len() + str_json(j.id).len() + ",\"joke\":"@.len(),
            j.joke,
        ),
        lit_at(
            s,
            pos + "{\"id\":"@.len() + str_json(j.id).len() + ",\"joke\":"@.len() + str_json(
                j.joke,
            ).len(),
            "}"@,
        ),
        joke_json(j).len() == "{\"id\":"@.len() + str_json(j.id).len() + ",\"joke\":"@.len()
            + str_json(j.joke).len() + "}"@.len(),
{
    let l1 = "{\"id\":"@;
    let l2 = ",\"joke\":"@;
    let l3 = "}"@;
    assert(joke_json(j) == l1 + str_json(j.id) + l2 + str_json(j.joke) + l3);
    lemma_lit_at_split(s, pos, l1 + str_json(j.id) + l2 + str_json(j.joke), l3);
    lemma_lit_at_split(s, pos, l1 + str_json(j.id) + l2, str_json(j.joke));
    lemma_lit_at_split(s, pos, l1 + str_json(j.id), l2);
    lemma_lit_at_split(s, pos, l1, str_json(j.id));
}

/// Reads one joke record at `pos`. Succeeds exactly on the wire form of a
/// well-formed joke record.
fn parse_joke_obj(s: &Vec<char>, pos: usize) -> (r: Option<(Joke, usize)>)
    requires
        pos <= s@.len(),
    ensures
        r matches Some(x) ==> pos < x.1 <= s@.len() && joke_wf(x.0@) && lit_at(
            s@,
            pos as int,
            joke_json(x.0@),
        ) && x.1 == pos + joke_json(x.0@).len(),
        forall|j: JokeV|
            joke_at(s@, pos as int, j) ==> (r matches Some(x) && x.0@ == j && x.1 == pos
                + joke_json(j).len()),
{
    proof {
        assert forall|j: JokeV| joke_at(s@, pos as int, j) implies lit_at(
            s@,
            pos as int,
            "{\"id\":"@,
        ) by {
            lemma_joke_at_pieces(s@, pos as int, j);
        }
    }
    let l1 = chars_of("{\"id\":");
    let p1 = match expect_lit(s, pos, &l1) {
        Some(p) => p,
        None => {
            return None;
        },
    };
    let sr1 = parse_string(s, p1);
    proof {
        assert forall|j: JokeV| joke_at(s@, pos as int, j) implies (sr1 matches Some(x) && x.0@
            == j.id && x.1 == p1 + str_json(j.id).len()) by {
            lemma_joke_at_pieces(s@, pos as int, j);
        }
    }
    let (id_chars, p2) = match sr1 {
        Some(x) => x,
        None => {
            return None;
        },
    };
    let ghost gid = id_chars@;
    let l2 = chars_of(",\"joke\":");
    let er2 = expect_lit(s, p2, &l2);
    proof {
        assert forall|j: JokeV| joke_at(s@, pos as int, j) implies er2 matches Some(p) by {
            lemma_joke_at_pieces(s@, pos as int, j);
        }
    }
    let p3 = match er2 {
        Some(p) => p,
        None => {
            return None;
        },
    };
    let sr2 = parse_string(s, p3);
    proof {
        assert forall|j: JokeV| joke_at(s@, pos as int, j) implies (sr2 matches Some(x) && x.0@
            == j.joke && x.1 == p3 + str_json(j.joke).len()) by {
            lemma_joke_at_pieces(s@, pos as int, j);
        }
    }
    let (joke_chars, p4) = match sr2 {
        Some(x) => x,
        None => {
            return None;
        },
    };
    let ghost gjoke = joke_chars@;
    let l3 = chars_of("}");
    let er3 = expect_lit(s, p4, &l3);
    proof {
        assert forall|j: JokeV| joke_at(s@, pos as int, j) implies er3 matches Some(p) by {
            lemma_joke_at_pieces(s@, pos as int, j);
        }
    }
    let p5 = match er3 {
        Some(p) => p,
        None => {
            return None;
        },
    };
    let out = Joke { id: string_from_chars(id_chars), joke: string_from_chars(joke_chars) };
    proof {
        assert(out@ == JokeV { id: gid, joke: gjoke });
        lemma_lit_at_combine(s@, pos as int, "{\"id\":"@, str_json(gid));
        lemma_lit_at_combine(s@, pos as int, "{\"id\":"@ + str_json(gid), ",\"joke\":"@);
        lemma_lit_at_combine(
            s@,
            pos as int,
            "{\"id\":"@ + str_json(gid) + ",\"joke\":"@,
            str_json(gjoke),
        );
        lemma_lit_at_combine(
            s@,
            pos as int,
            "{\"id\":"@ + str_json(gid) + ",\"joke\":"@ + str_json(gjoke),
            "}"@,
        );
        assert(joke_json(out@) == "{\"id\":"@ + str_json(gid) + ",\"joke\":"@ + str_json(gjoke)
            + "}"@);
        assert forall|j: JokeV| joke_at(s@, pos as int, j) implies out@ == j && p5 == pos
            + joke_json(j).len() by {
            lemma_joke_at_pieces(s@, pos as int, j);
            assert(gid == j.id);
            assert(gjoke == j.joke);
        }
    }
    Some((out, p5))
}

/// Whether the wire form of the joke sequence `js` stands at `pos`.
pub open spec fn jokes_at(s: Seq<char>, pos: int, js: Seq<JokeV>) -> bool {
    jokes_wf(js) && lit_at(s, pos, jokes_json(js))
}

/// A non-empty item list starts with its first record; what follows is a
/// comma and the remaining items, or nothing.
proof fn lemma_items_first(js: Seq<JokeV>)
    requires
        js.len() > 0,
    ensures
        js.len() == 1 ==> jokes_items(js) == joke_json(js[0]),
        js.len() > 1 ==> jokes_items(js) == joke_json(js[0]) + (seq![','] + jokes_items(
            js.skip(1),
        )),
{
    if js.len() > 1 {
        assert(jokes_items(js) == joke_json(js[0]) + seq![','] + jokes_items(js.skip(1)));
        assert(joke_json(js[0]) + seq![','] + jokes_items(js.skip(1)) =~= joke_json(js[0]) + (
        seq![','] + jokes_items(js.skip(1))));
    }
}

/// Reads a results array at `pos`: bracketed, comma-separated joke
/// records. Succeeds exactly on the wire form of a well-formed joke
/// sequence.
#[verifier::rlimit(60)]
fn parse_jokes_arr(s: &Vec<char>, pos: usize) -> (r: Option<(Vec<Joke>, usize)>)
    requires
        pos <= s@.len(),
    ensures
        r matches Some(x) ==> pos < x.1 <= s@.len() && jokes_wf(x.0@.map(|k: int, j: Joke| j@))
            && lit_at(s@, pos as int, jokes_json(x.0@.map(|k: int, j: Joke| j@))) && x.1 == pos
            + jokes_json(x.0@.map(|k: int, j: Joke| j@)).len(),
        forall|js: Seq<JokeV>|
            jokes_at(s@, pos as int, js) ==> (r matches Some(x) && x.0@.map(|k: int, j: Joke| j@)
                == js && x.1 == pos + jokes_json(js).len()),
{
    proof {
        assert forall|js: Seq<JokeV>| jokes_at(s@, pos as int, js) implies ({
            &&& pos + 2 <= s@.len()
            &&& s@[pos as int] == '['
            &&& lit_at(s@, pos + 1, jokes_items(js) + seq![']'])
            &&& (js.len() == 0 ==> s@[pos + 1] == ']')
            &&& (js.len() > 0 ==> s@[pos + 1] == '{')
        }) by {
            assert(jokes_json(js) == seq!['['] + (jokes_items(js) + seq![']'])) by {
                assert(jokes_json(js) =~= seq!['['] + (jokes_items(js) + seq![']']));
            }
            lemma_lit_at_split(s@, pos as int, seq!['['], jokes_items(js) + seq![']']);
            assert(s@.subrange(pos as int, pos + 1)[0] == seq!['['][0]);
            let tail = jokes_items(js) + seq![']'];
            assert(s@.subrange(pos + 1, pos + 1 + tail.len())[0] == tail[0]);
            if js.len() == 0 {
                assert(jokes_items(js).len() == 0);
                assert(tail[0] == ']');
            } else {
                lemma_items_first(js);
                assert(jokes_items(js)[0] == joke_json(js[0])[0]);
                assert(joke_json(js[0])[0] == '{') by {
                    reveal_strlit("{\"id\":");
                    assert(joke_json(js[0])[0] == "{\"id\":"@[0]);
                }
            }
        }
    }
    if pos >= s.len() || s[pos] != '[' {
        return None;
    }
    if pos + 1 >= s.len() {
        return None;
    }
    if s[pos + 1] == ']' {
        let out: Vec<Joke> = Vec::new();
        proof {
            let gout = out@.map(|k: int, j: Joke| j@);
            assert(gout =~= Seq::<JokeV>::empty());
            assert(jokes_items(gout).len() == 0);
            assert(s@.subrange(pos as int, pos + 2) =~= jokes_json(gout));
            assert forall|js: Seq<JokeV>| jokes_at(s@, pos as int, js) implies gout == js && pos + 2
                == pos + jokes_json(js).len() by {
                if js.len() > 0 {
                    assert(s@[pos + 1] == '{');
                }
                assert(js =~= gout);
            }
        }
        return Some((out, pos + 2));
    }
    let mut acc: Vec<Joke> = Vec::new();
    let mut i: usize = pos + 1;
    proof {
        assert(acc@.map(|k: int, j: Joke| j@) =~= Seq::<JokeV>::empty());
        assert(acc@.len() == 0);
        assert forall|js: Seq<JokeV>| jokes_at(s@, pos as int, js) implies ({
            let n = acc@.len() as int;
            &&& n < js.len()
            &&& acc@.map(|k: int, j: Joke| j@) == js.take(n)
            &&& lit_at(s@, i as int, jokes_items(js.skip(n)) + seq![']'])
            &&& i + jokes_items(js.skip(n)).len() + 1 == pos + jokes_json(js).len()
        }) by {
            if js.len() == 0 {
                assert(s@[pos + 1] == ']');
            }
            assert(js.skip(0) =~= js);
            assert(js.take(0) =~= Seq::<JokeV>::empty());
            assert(jokes_json(js).len() == 1 + jokes_items(js).len() + 1);
        }
    }
    loop
        invariant
            pos + 1 <= i <= s@.len(),
            s@.len() <= usize::MAX,
            s@[pos as int] == '[',
            jokes_wf(acc@.map(|k: int, j: Joke| j@)),
            acc@.len() > 0 ==> s@.subrange(pos + 1, i as int) == jokes_items(
                acc@.map(|k: int, j: Joke| j@),
            ) + seq![','],
            acc@.len() == 0 ==> i == pos + 1,
            forall|js: Seq<JokeV>|
                jokes_at(s@, pos as int, js) ==> {
                    let n = acc@.len() as int;
                    &&& n < js.len()
                    &&& acc@.map(|k: int, j: Joke| j@) == js.take(n)
                    &&& lit_at(s@, i as int, jokes_items(js.skip(n)) + seq![']'])
                    &&& i + jokes_items(js.skip(n)).len() + 1 == pos + jokes_json(js).len()
                },
        decreases s@.len() - i,
    {
        let ghost gacc = acc@.map(|k: int, j: Joke| j@);
        let ghost n = acc@.len() as int;
        proof {
            assert forall|js: Seq<JokeV>| jokes_at(s@, pos as int, js) implies joke_at(
                s@,
                i as int,
                js[n],
            ) by {
                lemma_items_first(js.skip(n));
                assert(js.skip(n)[0] == js[n]);
                if js.skip(n).len() == 1 {
                    assert(jokes_items(js.skip(n)) + seq![']'] == joke_json(js[n]) + seq![']']);
                    lemma_lit_at_split(s@, i as int, joke_json(js[n]), seq![']']);
                } else {
                    assert(jokes_items(js.skip(n)) + seq![']'] =~= joke_json(js[n]) + (seq![',']
                        + jokes_items(js.skip(n).skip(1)) + seq![']']));
                    lemma_lit_at_split(
                        s@,
                        i as int,
                        joke_json(js[n]),
                        seq![','] + jokes_items(js.skip(n).skip(1)) + seq![']'],
                    );
                }
                assert(joke_wf(js[n]));
            }
        }
        let jr = parse_joke_obj(s, i);
        let (jk, i2) = match jr {
            Some(x) => x,
            None => {
                return None;
            },
        };
        proof {
            // What stands right after the record, for any matching sequence.
            assert forall|js: Seq<JokeV>| jokes_at(s@, pos as int, js) implies ({
                &&& jk@ == js[n]
                &&& (js.len() == n + 1 ==> i2 < s@.len() && s@[i2 as int] == ']')
                &&& (js.len() > n + 1 ==> i2 < s@.len() && s@[i2 as int] == ',' && lit_at(
                    s@,
                    i2 + 1,
                    jokes_items(js.skip(n + 1)) + seq![']'],
                ) && i2 + 1 + jokes_items(js.skip(n + 1)).len() + 1 == pos + jokes_json(js).len())
                &&& (js.len() == n + 1 ==> i2 + 1 == pos + jokes_json(js).len())
            }) by {
                lemma_items_first(js.skip(n));
                assert(js.skip(n)[0] == js[n]);
                if js.skip(n).len() == 1 {
                    assert(jokes_items(js.skip(n)) + seq![']'] == joke_json(js[n]) + seq![']']);
                    lemma_lit_at_split(s@, i as int, joke_json(js[n]), seq![']']);
                    assert(s@.subrange(i + joke_json(js[n]).len(), i + joke_json(js[n]).len() + 1)[0]
                        == ']');
                } else {
                    let rest = seq![','] + jokes_items(js.skip(n).skip(1)) + seq![']'];
                    assert(jokes_items(js.skip(n)) + seq![']'] =~= joke_json(js[n]) + rest);
                    lemma_lit_at_split(s@, i as int, joke_json(js[n]), rest);
                    assert(s@.subrange(i + joke_json(js[n]).len(), i + joke_json(js[n]).len()
                        + rest.len())[0] == rest[0]);
                    assert(rest[0] == ',');
                    assert(rest =~= seq![','] + (jokes_items(js.skip(n + 1)) + seq![']'])) by {
                        assert(js.skip(n).skip(1) =~= js.skip(n + 1));
                    }
                    lemma_lit_at_split(
                        s@,
                        i + joke_json(js[n]).len(),
                        seq![','],
                        jokes_items(js.skip(n + 1)) + seq![']'],
                    );
                }
            }
        }
        acc.push(jk);
        let ghost gacc2 = acc@.map(|k: int, j: Joke| j@);
        proof {
            assert(gacc2 =~= gacc.push(jk@));
            crate::wire::lemma_jokes_items_push(gacc, jk@);
            if n > 0 {
                assert(s@.subrange(pos + 1, i2 as int) =~= jokes_items(gacc) + seq![',']
                    + joke_json(jk@));
                assert(jokes_items(gacc2) == jokes_items(gacc) + seq![','] + joke_json(jk@));
            } else {
                assert(s@.subrange(pos + 1, i2 as int) =~= joke_json(jk@));
                assert(jokes_items(gacc2) == joke_json(jk@));
            }
            assert(s@.subrange(pos + 1, i2 as int) == jokes_items(gacc2));
        }
        if i2 < s.len() {
            let c = s[i2];
            if c == ']' {
                proof {
                    assert(s@.subrange(pos as int, i2 + 1) =~= seq!['['] + jokes_items(gacc2)
                        + seq![']']);
                    assert(jokes_json(gacc2) == seq!['['] + jokes_items(gacc2) + seq![']']);
                    assert(jokes_wf(gacc2)) by {
                        assert forall|k: int| 0 <= k < gacc2.len() implies joke_wf(
                            #[trigger] gacc2[k],
                        ) by {
                            if k < n {
                                assert(gacc2[k] == gacc[k]);
                            }
                        }
                    }
                    assert forall|js: Seq<JokeV>| jokes_at(s@, pos as int, js) implies gacc2 == js
                        && i2 + 1 == pos + jokes_json(js).len() by {
                        if js.len() > n + 1 {
                            assert(s@[i2 as int] == ',');
                        }
                        assert(js.len() == n + 1);
                        assert(js.take(n) == gacc);
                        assert(gacc2 =~= js) by {
                            assert forall|k: int| 0 <= k < js.len() implies gacc2[k] == js[k] by {
                                if k < n {
                                    assert(js.take(n)[k] == js[k]);
                                }
                            }
                        }
                    }
                }
                return Some((acc, i2 + 1));
            }
            if c == ',' {
                proof {
                    assert(s@.subrange(pos + 1, i2 + 1) =~= jokes_items(gacc2) + seq![',']);
                    assert(jokes_wf(gacc2)) by {
                        assert forall|k: int| 0 <= k < gacc2.len() implies joke_wf(
                            #[trigger] gacc2[k],
                        ) by {
                            if k < n {
                                assert(gacc2[k] == gacc[k]);
                            }
                        }
                    }
                    assert forall|js: Seq<JokeV>| jokes_at(s@, pos as int, js) implies ({
                        &&& n + 1 < js.len()
                        &&& gacc2 == js.take(n + 1)
                        &&& lit_at(s@, i2 + 1, jokes_items(js.skip(n + 1)) + seq![']'])
                        &&& i2 + 1 + jokes_items(js.skip(n + 1)).len() + 1 == pos + jokes_json(
                            js,
                        ).len()
                    }) by {
                        if js.len() == n + 1 {
                            assert(s@[i2 as int] == ']');
                        }
                        assert(gacc2 =~= js.take(n + 1)) by {
                            assert forall|k: int| 0 <= k < n + 1 implies gacc2[k] == js.take(
                                n + 1,
                            )[k] by {
                                if k < n {
                                    assert(gacc[k] == js.take(n)[k]);
                                }
                            }
                        }
                    }
                }
                i = i2 + 1;
                continue ;
            }
            return None;
        }
        return None;
    }
}

/// Whether `s` is exactly the wire form of the random-joke response `v`.
pub open spec fn succ_doc(s: Seq<char>, v: SuccessfulResponseV) -> bool {
    succ_wf(v) && s == succ_json(v)
}

/// A random-joke document decomposes into its seven pieces, at their
/// offsets.
proof fn lemma_succ_at_pieces(s: Seq<char>, v: SuccessfulResponseV)
    requires
        succ_doc(s, v),
    ensures
        lit_at(s, 0, "{\"id\":"@),
        str_at(s, "{\"id\":"@.len() as int, v.id),
        lit_at(s, "{\"id\":"@.len() as int + str_json(v.id).len(), ",\"status\":"@),
        int_at(s, "{\"id\":"@.len() as int + str_json(v.id).len() + ",\"status\":"@.len(), v.status),
        int_ends_at(
            s,
            "{\"id\":"@.len() as int + str_json(v.id).len() + ",\"status\":"@.len(),
            v.status,
        ),
        lit_at(
            s,
            "{\"id\":"@.len() as int + str_json(v.id).len() + ",\"status\":"@.len() + int_json(
                v.status,
            ).len(),
            ",\"joke\":"@,
        ),
        str_at(
            s,
            "{\"id\":"@.len() as int + str_json(v.id).len() + ",\"status\":"@.len() + int_json(
                v.status,
            ).len() + ",\"joke\":"@.len(),
            v.joke,
        ),
        lit_at(
            s,
            "{\"id\":"@.len() as int + str_json(v.id).len() + ",\"status\":"@.len() + int_json(
                v.status,
            ).len() + ",\"joke\":"@.len() + str_json(v.joke).len(),
            "}"@,
        ),
        succ_json(v).len() == "{\"id\":"@.len() + str_json(v.id).len() + ",\"status\":"@.len()
            + int_json(v.status).len() + ",\"joke\":"@.len() + str_json(v.joke).len()
            + "}"@.len(),
{
    assert(lit_at(s, 0, succ_json(v))) by {
        assert(s.subrange(0, succ_json(v).len() as int) =~= succ_json(v));
    }
    reveal_strlit("{\"id\":");
    reveal_strlit(",\"status\":");
    reveal_strlit(",\"joke\":");
    reveal_strlit("}");
    let l1 = "{\"id\":"@;
    let l2 = ",\"status\":"@;
    let l3 = ",\"joke\":"@;
    let l4 = "}"@;
    assert(succ_json(v) == l1 + str_json(v.id) + l2 + int_json(v.status) + l3 + str_json(v.joke)
        + l4);
    lemma_lit_at_split(s, 0, l1 + str_json(v.id) + l2 + int_json(v.status) + l3 + str_json(v.joke),
        l4);
    lemma_lit_at_split(s, 0, l1 + str_json(v.id) + l2 + int_json(v.status) + l3, str_json(v.joke));
    lemma_lit_at_split(s, 0, l1 + str_json(v.id) + l2 + int_json(v.status), l3);
    lemma_lit_at_split(s, 0, l1 + str_json(v.id) + l2, int_json(v.status));
    lemma_lit_at_split(s, 0, l1 + str_json(v.id), l2);
    lemma_lit_at_split(s, 0, l1, str_json(v.id));
    let ost: int = "{\"id\":"@.len() as int + str_json(v.id).len() + ",\"status\":"@.len();
    let oc: int = ost + int_json(v.status).len();
    assert(s.subrange(oc, oc + l3.len())[0] == l3[0]);
    assert(s[oc] == ',');
    assert(!is_digit_char(','));
}

/// Reads a whole random-joke document. Succeeds exactly on the wire form
/// of a well-formed random-joke response.
pub fn parse_succ_doc(s: &Vec<char>) -> (r: Option<SuccessfulResponse>)
    ensures
        r matches Some(x) ==> succ_wf(x@) && s@ == succ_json(x@),
        forall|v: SuccessfulResponseV| succ_doc(s@, v) ==> (r matches Some(x) && x@ == v),
{
    proof {
        assert forall|v: SuccessfulResponseV| succ_doc(s@, v) implies lit_at(
            s@,
            0,
            "{\"id\":"@,
        ) by {
            lemma_succ_at_pieces(s@, v);
        }
    }
    let l1 = chars_of("{\"id\":");
    let p1 = match expect_lit(s, 0, &l1) {
        Some(p) => p,
        None => {
            return None;
        },
    };
    let sr1 = parse_string(s, p1);
    proof {
        assert forall|v: SuccessfulResponseV| succ_doc(s@, v) implies (sr1 matches Some(x) && x.0@
            == v.id && x.1 == p1 + str_json(v.id).len()) by {
            lemma_succ_at_pieces(s@, v);
        }
    }
    let (id_chars, p2) = match sr1 {
        Some(x) => x,
        None => {
            return None;
        },
    };
    let ghost gid = id_chars@;
    let l2 = chars_of(",\"status\":");
    let er2 = expect_lit(s, p2, &l2);
    proof {
        assert forall|v: SuccessfulResponseV| succ_doc(s@, v) implies er2 matches Some(p) by {
            lemma_succ_at_pieces(s@, v);
        }
    }
    let p3 = match er2 {
        Some(p) => p,
        None => {
            return None;
        },
    };
    let ir = parse_int(s, p3);
    proof {
        assert forall|v: SuccessfulResponseV| succ_doc(s@, v) implies (ir matches Some(x) && x.0
            as int == v.status && x.1 == p3 + int_json(v.status).len()) by {
            lemma_succ_at_pieces(s@, v);
        }
    }
    let (status, p4) = match ir {
        Some(x) => x,
        None => {
            return None;
        },
    };
    let l3 = chars_of(",\"joke\":");
    let er3 = expect_lit(s, p4, &l3);
    proof {
        assert forall|v: SuccessfulResponseV| succ_doc(s@, v) implies er3 matches Some(p) by {
            lemma_succ_at_pieces(s@, v);
        }
    }
    let p5 = match er3 {
        Some(p) => p,
        None => {
            return None;
        },
    };
    let sr2 = parse_string(s, p5);
    proof {
        assert forall|v: SuccessfulResponseV| succ_doc(s@, v) implies (sr2 matches Some(x) && x.0@
            == v.joke && x.1 == p5 + str_json(v.joke).len()) by {
            lemma_succ_at_pieces(s@, v);
        }
    }
    let (joke_chars, p6) = match sr2 {
        Some(x) => x,
        None => {
            return None;
        },
    };
    let ghost gjoke = joke_chars@;
    let l4 = chars_of("}");
    let er4 = expect_lit(s, p6, &l4);
    proof {
        assert forall|v: SuccessfulResponseV| succ_doc(s@, v) implies (er4 matches Some(p) && p6 + 1
            == s@.len()) by {
            lemma_succ_at_pieces(s@, v);
            reveal_strlit("}");
        }
    }
    let p7 = match er4 {
        Some(p) => p,
        None => {
            return None;
        },
    };
    if p7 != s.len() {
        return None;
    }
    let out = SuccessfulResponse {
        id: string_from_chars(id_chars),
        status,
        joke: string_from_chars(joke_chars),
    };
    proof {
        assert(out@ == SuccessfulResponseV { id: gid, status: status as int, joke: gjoke });
        lemma_lit_at_combine(s@, 0, "{\"id\":"@, str_json(gid));
        lemma_lit_at_combine(s@, 0, "{\"id\":"@ + str_json(gid), ",\"status\":"@);
        lemma_lit_at_combine(
            s@,
            0,
            "{\"id\":"@ + str_json(gid) + ",\"status\":"@,
            int_json(status as int),
        );
        lemma_lit_at_combine(
            s@,
            0,
            "{\"id\":"@ + str_json(gid) + ",\"status\":"@ + int_json(status as int),
            ",\"joke\":"@,
        );
        lemma_lit_at_combine(
            s@,
            0,
            "{\"id\":"@ + str_json(gid) + ",\"status\":"@ + int_json(status as int) + ",\"joke\":"@,
            str_json(gjoke),
        );
        lemma_lit_at_combine(
            s@,
            0,
            "{\"id\":"@ + str_json(gid) + ",\"status\":"@ + int_json(status as int) + ",\"joke\":"@
                + str_json(gjoke),
            "}"@,
        );
        assert(succ_json(out@) == "{\"id\":"@ + str_json(gid) + ",\"status\":"@ + int_json(
            status as int,
        ) + ",\"joke\":"@ + str_json(gjoke) + "}"@);
        assert(s@ =~= succ_json(out@)) by {
            assert(lit_at(s@, 0, succ_json(out@)));
            assert(s@.len() == succ_json(out@).len());
            assert(s@.subrange(0, s@.len() as int) =~= s@);
        }
        assert(succ_wf(out@));
        assert forall|v: SuccessfulResponseV| succ_doc(s@, v) implies out@ == v by {
            lemma_succ_at_pieces(s@, v);
            assert(gid == v.id);
            assert(status as int == v.status);
            assert(gjoke == v.joke);
        }
    }
    Some(out)
}


/// Whether `s` is exactly the wire form of the joke record `j`.
pub open spec fn joke_doc(s: Seq<char>, j: JokeV) -> bool {
    joke_wf(j) && s == joke_json(j)
}

/// Reads a whole fetched-joke document. Succeeds exactly on the wire form
/// of a well-formed joke record.
pub fn parse_joke_doc(s: &Vec<char>) -> (r: Option<Joke>)
    ensures
        r matches Some(x) ==> joke_wf(x@) && s@ == joke_json(x@),
        forall|j: JokeV| joke_doc(s@, j) ==> (r matches Some(x) && x@ == j),
{
    proof {
        assert forall|j: JokeV| joke_doc(s@, j) implies joke_at(s@, 0, j) && joke_json(j).len()
            == s@.len() by {
            assert(s@.subrange(0, joke_json(j).len() as int) =~= joke_json(j));
        }
    }
    let jr = parse_joke_obj(s, 0);
    let (jk, p) = match jr {
        Some(x) => x,
        None => {
            return None;
        },
    };
    if p != s.len() {
        return None;
    }
    proof {
        assert(s@ =~= s@.subrange(0, s@.len() as int));
        assert(s@ =~= joke_json(jk@));
    }
    Some(jk)
}

/// Whether `s` is exactly the wire form of the search response `v`.
pub open spec fn search_doc(s: Seq<char>, v: SearchResponseV) -> bool {
    search_wf(v) && s == search_json(v)
}

/// The pieces of a search document, each at its offset.
pub open spec fn search_pieces(s: Seq<char>, v: SearchResponseV) -> bool {
    let o1: int = "{\"current_page\":"@.len() as int;
    let o2: int = o1 + int_json(v.current_page).len();
    let o3: int = o2 + ",\"limit\":"@.len();
    let o4: int = o3 + int_json(v.limit).len();
    let o5: int = o4 + ",\"next_page\":"@.len();
    let o6: int = o5 + int_json(v.next_page).len();
    let o7: int = o6 + ",\"previous_page\":"@.len();
    let o8: int = o7 + int_json(v.previous_page).len();
    let o9: int = o8 + ",\"results\":"@.len();
    let o10: int = o9 + jokes_json(v.results).len();
    let o11: int = o10 + ",\"search_term\":"@.len();
    let o12: int = o11 + str_json(v.search_term).len();
    let o13: int = o12 + ",\"status\":"@.len();
    let o14: int = o13 + int_json(v.status).len();
    let o15: int = o14 + ",\"total_jokes\":"@.len();
    let o16: int = o15 + int_json(v.total_jokes).len();
    let o17: int = o16 + ",\"total_pages\":"@.len();
    let o18: int = o17 + int_json(v.total_pages).len();
    &&& lit_at(s, 0, "{\"current_page\":"@)
    &&& int_at(s, o1, v.current_page) && int_ends_at(s, o1, v.current_page)
    &&& lit_at(s, o2, ",\"limit\":"@)
    &&& int_at(s, o3, v.limit) && int_ends_at(s, o3, v.limit)
    &&& lit_at(s, o4, ",\"next_page\":"@)
    &&& int_at(s, o5, v.next_page) && int_ends_at(s, o5, v.next_page)
    &&& lit_at(s, o6, ",\"previous_page\":"@)
    &&& int_at(s, o7, v.previous_page) && int_ends_at(s, o7, v.previous_page)
    &&& lit_at(s, o8, ",\"results\":"@)
    &&& jokes_at(s, o9, v.results)
    &&& lit_at(s, o10, ",\"search_term\":"@)
    &&& str_at(s, o11, v.search_term)
    &&& lit_at(s, o12, ",\"status\":"@)
    &&& int_at(s, o13, v.status) && int_ends_at(s, o13, v.status)
    &&& lit_at(s, o14, ",\"total_jokes\":"@)
    &&& int_at(s, o15, v.total_jokes) && int_ends_at(s, o15, v.total_jokes)
    &&& lit_at(s, o16, ",\"total_pages\":"@)
    &&& int_at(s, o17, v.total_pages) && int_ends_at(s, o17, v.total_pages)
    &&& lit_at(s, o18, "}"@)
    &&& s.len() == o18 + 1
}

/// A search document decomposes into its pieces, at their offsets.
#[verifier::rlimit(100)]
proof fn lemma_search_at_pieces(s: Seq<char>, v: SearchResponseV)
    requires
        search_doc(s, v),
    ensures
        search_pieces(s, v),
{
    assert(lit_at(s, 0, search_json(v))) by {
        assert(s.subrange(0, search_json(v).len() as int) =~= search_json(v));
    }
    let o1: int = "{\"current_page\":"@.len() as int;
    let o2: int = o1 + int_json(v.current_page).len();
    let o3: int = o2 + ",\"limit\":"@.len();
    let o4: int = o3 + int_json(v.limit).len();
    let o5: int = o4 + ",\"next_page\":"@.len();
    let o6: int = o5 + int_json(v.next_page).len();
    let o7: int = o6 + ",\"previous_page\":"@.len();
    let o8: int = o7 + int_json(v.previous_page).len();
    let o9: int = o8 + ",\"results\":"@.len();
    let o10: int = o9 + jokes_json(v.results).len();
    let o11: int = o10 + ",\"search_term\":"@.len();
    let o12: int = o11 + str_json(v.search_term).len();
    let o13: int = o12 + ",\"status\":"@.len();
    let o14: int = o13 + int_json(v.status).len();
    let o15: int = o14 + ",\"total_jokes\":"@.len();
    let o16: int = o15 + int_json(v.total_jokes).len();
    let o17: int = o16 + ",\"total_pages\":"@.len();
    let o18: int = o17 + int_json(v.total_pages).len();
    reveal_strlit("{\"current_page\":");
    reveal_strlit(",\"limit\":");
    reveal_strlit(",\"next_page\":");
    reveal_strlit(",\"previous_page\":");
    reveal_strlit(",\"results\":");
    reveal_strlit(",\"search_term\":");
    reveal_strlit(",\"status\":");
    reveal_strlit(",\"total_jokes\":");
    reveal_strlit(",\"total_pages\":");
    reveal_strlit("}");
    assert(search_json(v) == "{\"current_page\":"@ + int_json(v.current_page) + ",\"limit\":"@ + int_json(v.limit) + ",\"next_page\":"@ + int_json(v.next_page) + ",\"previous_page\":"@ + int_json(v.previous_page) + ",\"results\":"@ + jokes_json(v.results) + ",\"search_term\":"@ + str_json(v.search_term) + ",\"status\":"@ + int_json(v.status) + ",\"total_jokes\":"@ + int_json(v.total_jokes) + ",\"total_pages\":"@ + int_json(v.total_pages) + "}"@);
    lemma_lit_at_split(s, 0, "{\"current_page\":"@ + int_json(v.current_page) + ",\"limit\":"@ + int_json(v.limit) + ",\"next_page\":"@ + int_json(v.next_page) + ",\"previous_page\":"@ + int_json(v.previous_page) + ",\"results\":"@ + jokes_json(v.results) + ",\"search_term\":"@ + str_json(v.search_term) + ",\"status\":"@ + int_json(v.status) + ",\"total_jokes\":"@ + int_json(v.total_jokes) + ",\"total_pages\":"@ + int_json(v.total_pages), "}"@);
    lemma_lit_at_split(s, 0, "{\"current_page\":"@ + int_json(v.current_page) + ",\"limit\":"@ + int_json(v.limit) + ",\"next_page\":"@ + int_json(v.next_page) + ",\"previous_page\":"@ + int_json(v.previous_page) + ",\"results\":"@ + jokes_json(v.results) + ",\"search_term\":"@ + str_json(v.search_term) + ",\"status\":"@ + int_json(v.status) + ",\"total_jokes\":"@ + int_json(v.total_jokes) + ",\"total_pages\":"@, int_json(v.total_pages));
    lemma_lit_at_split(s, 0, "{\"current_page\":"@ + int_json(v.current_page) + ",\"limit\":"@ + int_json(v.limit) + ",\"next_page\":"@ + int_json(v.next_page) + ",\"previous_page\":"@ + int_json(v.previous_page) + ",\"results\":"@ + jokes_json(v.results) + ",\"search_term\":"@ + str_json(v.search_term) + ",\"status\":"@ + int_json(v.status) + ",\"total_jokes\":"@ + int_json(v.total_jokes), ",\"total_pages\":"@);
    lemma_lit_at_split(s, 0, "{\"current_page\":"@ + int_json(v.current_page) + ",\"limit\":"@ + int_json(v.limit) + ",\"next_page\":"@ + int_json(v.next_page) + ",\"previous_page\":"@ + int_json(v.previous_page) + ",\"results\":"@ + jokes_json(v.results) + ",\"search_term\":"@ + str_json(v.search_term) + ",\"status\":"@ + int_json(v.status) + ",\"total_jokes\":"@, int_json(v.total_jokes));
    lemma_lit_at_split(s, 0, "{\"current_page\":"@ + int_json(v.current_page) + ",\"limit\":"@ + int_json(v.limit) + ",\"next_page\":"@ + int_json(v.next_page) + ",\"previous_page\":"@ + int_json(v.previous_page) + ",\"results\":"@ + jokes_json(v.results) + ",\"search_term\":"@ + str_json(v.search_term) + ",\"status\":"@ + int_json(v.status), ",\"total_jokes\":"@);
    lemma_lit_at_split(s, 0, "{\"current_page\":"@ + int_json(v.current_page) + ",\"limit\":"@ + int_json(v.limit) + ",\"next_page\":"@ + int_json(v.next_page) + ",\"previous_page\":"@ + int_json(v.previous_page) + ",\"results\":"@ + jokes_json(v.results) + ",\"search_term\":"@ + str_json(v.search_term) + ",\"status\":"@, int_json(v.status));
    lemma_lit_at_split(s, 0, "{\"current_page\":"@ + int_json(v.current_page) + ",\"limit\":"@ + int_json(v.limit) + ",\"next_page\":"@ + int_json(v.next_page) + ",\"previous_page\":"@ + int_json(v.previous_page) + ",\"results\":"@ + jokes_json(v.results) + ",\"search_term\":"@ + str_json(v.search_term), ",\"status\":"@);
    lemma_lit_at_split(s, 0, "{\"current_page\":"@ + int_json(v.current_page) + ",\"limit\":"@ + int_json(v.limit) + ",\"next_page\":"@ + int_json(v.next_page) + ",\"previous_page\":"@ + int_json(v.previous_page) + ",\"results\":"@ + jokes_json(v.results) + ",\"search_term\":"@, str_json(v.search_term));
    lemma_lit_at_split(s, 0, "{\"current_page\":"@ + int_json(v.current_page) + ",\"limit\":"@ + int_json(v.limit) + ",\"next_page\":"@ + int_json(v.next_page) + ",\"previous_page\":"@ + int_json(v.previous_page) + ",\"results\":"@ + jokes_json(v.results), ",\"search_term\":"@);
    lemma_lit_at_split(s, 0, "{\"current_page\":"@ + int_json(v.current_page) + ",\"limit\":"@ + int_json(v.limit) + ",\"next_page\":"@ + int_json(v.next_page) + ",\"previous_page\":"@ + int_json(v.previous_page) + ",\"results\":"@, jokes_json(v.results));
    lemma_lit_at_split(s, 0, "{\"current_page\":"@ + int_json(v.current_page) + ",\"limit\":"@ + int_json(v.limit) + ",\"next_page\":"@ + int_json(v.next_page) + ",\"previous_page\":"@ + int_json(v.previous_page), ",\"results\":"@);
    lemma_lit_at_split(s, 0, "{\"current_page\":"@ + int_json(v.current_page) + ",\"limit\":"@ + int_json(v.limit) + ",\"next_page\":"@ + int_json(v.next_page) + ",\"previous_page\":"@, int_json(v.previous_page));
    lemma_lit_at_split(s, 0, "{\"current_page\":"@ + int_json(v.current_page) + ",\"limit\":"@ + int_json(v.limit) + ",\"next_page\":"@ + int_json(v.next_page), ",\"previous_page\":"@);
    lemma_lit_at_split(s, 0, "{\"current_page\":"@ + int_json(v.current_page) + ",\"limit\":"@ + int_json(v.limit) + ",\"next_page\":"@, int_json(v.next_page));
    lemma_lit_at_split(s, 0, "{\"current_page\":"@ + int_json(v.current_page) + ",\"limit\":"@ + int_json(v.limit), ",\"next_page\":"@);
    lemma_lit_at_split(s, 0, "{\"current_page\":"@ + int_json(v.current_page) + ",\"limit\":"@, int_json(v.limit));
    lemma_lit_at_split(s, 0, "{\"current_page\":"@ + int_json(v.current_page), ",\"limit\":"@);
    lemma_lit_at_split(s, 0, "{\"current_page\":"@, int_json(v.current_page));
    assert(s.subrange(o2, o2 + ",\"limit\":"@.len())[0] == ",\"limit\":"@[0]);
    assert(!is_digit_char(s[o2]));
    assert(s.subrange(o4, o4 + ",\"next_page\":"@.len())[0] == ",\"next_page\":"@[0]);
    assert(!is_digit_char(s[o4]));
    assert(s.subrange(o6, o6 + ",\"previous_page\":"@.len())[0] == ",\"previous_page\":"@[0]);
    assert(!is_digit_char(s[o6]));
    assert(s.subrange(o8, o8 + ",\"results\":"@.len())[0] == ",\"results\":"@[0]);
    assert(!is_digit_char(s[o8]));
    assert(s.subrange(o14, o14 + ",\"total_jokes\":"@.len())[0] == ",\"total_jokes\":"@[0]);
    assert(!is_digit_char(s[o14]));
    assert(s.subrange(o16, o16 + ",\"total_pages\":"@.len())[0] == ",\"total_pages\":"@[0]);
    assert(!is_digit_char(s[o16]));
    assert(s.subrange(o18, o18 + "}"@.len())[0] == "}"@[0]);
    assert(!is_digit_char(s[o18]));
}

/// Reads a whole search document. Succeeds exactly on the wire form of a
/// well-formed search response.
#[verifier::rlimit(100)]
pub fn parse_search_doc(s: &Vec<char>) -> (r: Option<SearchResponse>)
    ensures
        r matches Some(x) ==> search_wf(x@) && s@ == search_json(x@),
        forall|v: SearchResponseV| search_doc(s@, v) ==> (r matches Some(x) && x@ == v),
{
    proof {
        assert forall|v: SearchResponseV| search_doc(s@, v) implies lit_at(
            s@,
            0,
            "{\"current_page\":"@,
        ) by {
            lemma_search_at_pieces(s@, v);
        }
    }
    let l1 = chars_of("{\"current_page\":");
    let p1 = match expect_lit(s, 0, &l1) {
        Some(p) => p,
        None => {
            return None;
        },
    };
    let ir_current_page = parse_int(s, p1);
    proof {
        assert forall|v: SearchResponseV| search_doc(s@, v) implies (ir_current_page matches Some(x) && x.0
            as int == v.current_page && x.1 == p1 + int_json(v.current_page).len()) by {
            lemma_search_at_pieces(s@, v);
        }
    }
    let (f_current_page, p2) = match ir_current_page {
        Some(x) => x,
        None => {
            return None;
        },
    };
    let l2 = chars_of(",\"limit\":");
    let el2 = expect_lit(s, p2, &l2);
    proof {
        assert forall|v: SearchResponseV| search_doc(s@, v) implies el2 matches Some(p) by {
            lemma_search_at_pieces(s@, v);
        }
    }
    let p3 = match el2 {
        Some(p) => p,
        None => {
            return None;
        },
    };
    let ir_limit = parse_int(s, p3);
    proof {
        assert forall|v: SearchResponseV| search_doc(s@, v) implies (ir_limit matches Some(x) && x.0
            as int == v.limit && x.1 == p3 + int_json(v.limit).len()) by {
            lemma_search_at_pieces(s@, v);
        }
    }
    let (f_limit, p4) = match ir_limit {
        Some(x) => x,
        None => {
            return None;
        },
    };
    let l3 = chars_of(",\"next_page\":");
    let el3 = expect_lit(s, p4, &l3);
    proof {
        assert forall|v: SearchResponseV| search_doc(s@, v) implies el3 matches Some(p) by {
            lemma_search_at_pieces(s@, v);
        }
    }
    let p5 = match el3 {
        Some(p) => p,
        None => {
            return None;
        },
    };
    let ir_next_page = parse_int(s, p5);
    proof {
        assert forall|v: SearchResponseV| search_doc(s@, v) implies (ir_next_page matches Some(x) && x.0
            as int == v.next_page && x.1 == p5 + int_json(v.next_page).len()) by {
            lemma_search_at_pieces(s@, v);
        }
    }
    let (f_next_page, p6) = match ir_next_page {
        Some(x) => x,
        None => {
            return None;
        },
    };
    let l4 = chars_of(",\"previous_page\":");
    let el4 = expect_lit(s, p6, &l4);
    proof {
        assert forall|v: SearchResponseV| search_doc(s@, v) implies el4 matches Some(p) by {
            lemma_search_at_pieces(s@, v);
        }
    }
    let p7 = match el4 {
        Some(p) => p,
        None => {
            return None;
        },
    };
    let ir_previous_page = parse_int(s, p7);
    proof {
        assert forall|v: SearchResponseV| search_doc(s@, v) implies (ir_previous_page matches Some(x) && x.0
            as int == v.previous_page && x.1 == p7 + int_json(v.previous_page).len()) by {
            lemma_search_at_pieces(s@, v);
        }
    }
    let (f_previous_page, p8) = match ir_previous_page {
        Some(x) => x,
        None => {
            return None;
        },
    };
    let l5 = chars_of(",\"results\":");
    let el5 = expect_lit(s, p8, &l5);
    proof {
        assert forall|v: SearchResponseV| search_doc(s@, v) implies el5 matches Some(p) by {
            lemma_search_at_pieces(s@, v);
        }
    }
    let p9 = match el5 {
        Some(p) => p,
        None => {
            return None;
        },
    };
    let ar = parse_jokes_arr(s, p9);
    proof {
        assert forall|v: SearchResponseV| search_doc(s@, v) implies (ar matches Some(x)
            && x.0@.map(|kk: int, j: Joke| j@) == v.results && x.1 == p9 + jokes_json(
            v.results,
        ).len()) by {
            lemma_search_at_pieces(s@, v);
        }
    }
    let (f_results, p10) = match ar {
        Some(x) => x,
        None => {
            return None;
        },
    };
    let ghost g_results = f_results@.map(|kk: int, j: Joke| j@);
    let l6 = chars_of(",\"search_term\":");
    let el6 = expect_lit(s, p10, &l6);
    proof {
        assert forall|v: SearchResponseV| search_doc(s@, v) implies el6 matches Some(p) by {
            lemma_search_at_pieces(s@, v);
        }
    }
    let p11 = match el6 {
        Some(p) => p,
        None => {
            return None;
        },
    };
    let sr = parse_string(s, p11);
    proof {
        assert forall|v: SearchResponseV| search_doc(s@, v) implies (sr matches Some(x) && x.0@
            == v.search_term && x.1 == p11 + str_json(v.search_term).len()) by {
            lemma_search_at_pieces(s@, v);
        }
    }
    let (term_chars, p12) = match sr {
        Some(x) => x,
        None => {
            return None;
        },
    };
    let ghost g_term = term_chars@;
    let l7 = chars_of(",\"status\":");
    let el7 = expect_lit(s, p12, &l7);
    proof {
        assert forall|v: SearchResponseV| search_doc(s@, v) implies el7 matches Some(p) by {
            lemma_search_at_pieces(s@, v);
        }
    }
    let p13 = match el7 {
        Some(p) => p,
        None => {
            return None;
        },
    };
    let ir_status = parse_int(s, p13);
    proof {
        assert forall|v: SearchResponseV| search_doc(s@, v) implies (ir_status matches Some(x) && x.0
            as int == v.status && x.1 == p13 + int_json(v.status).len()) by {
            lemma_search_at_pieces(s@, v);
        }
    }
    let (f_status, p14) = match ir_status {
        Some(x) => x,
        None => {
            return None;
        },
    };
    let l8 = chars_of(",\"total_jokes\":");
    let el8 = expect_lit(s, p14, &l8);
    proof {
        assert forall|v: SearchResponseV| search_doc(s@, v) implies el8 matches Some(p) by {
            lemma_search_at_pieces(s@, v);
        }
    }
    let p15 = match el8 {
        Some(p) => p,
        None => {
            return None;
        },
    };
    let ir_total_jokes = parse_int(s, p15);
    proof {
        assert forall|v: SearchResponseV| search_doc(s@, v) implies (ir_total_jokes matches Some(x) && x.0
            as int == v.total_jokes && x.1 == p15 + int_json(v.total_jokes).len()) by {
            lemma_search_at_pieces(s@, v);
        }
    }
    let (f_total_jokes, p16) = match ir_total_jokes {
        Some(x) => x,
        None => {
            return None;
        },
    };
    let l9 = chars_of(",\"total_pages\":");
    let el9 = expect_lit(s, p16, &l9);
    proof {
        assert forall|v: SearchResponseV| search_doc(s@, v) implies el9 matches Some(p) by {
            lemma_search_at_pieces(s@, v);
        }
    }
    let p17 = match el9 {
        Some(p) => p,
        None => {
            return None;
        },
    };
    let ir_total_pages = parse_int(s, p17);
    proof {
        assert forall|v: SearchResponseV| search_doc(s@, v) implies (ir_total_pages matches Some(x) && x.0
            as int == v.total_pages && x.1 == p17 + int_json(v.total_pages).len()) by {
            lemma_search_at_pieces(s@, v);
        }
    }
    let (f_total_pages, p18) = match ir_total_pages {
        Some(x) => x,
        None => {
            return None;
        },
    };
    let l10 = chars_of("}");
    let el10 = expect_lit(s, p18, &l10);
    proof {
        assert forall|v: SearchResponseV| search_doc(s@, v) implies el10 matches Some(p) by {
            lemma_search_at_pieces(s@, v);
        }
    }
    let p19 = match el10 {
        Some(p) => p,
        None => {
            return None;
        },
    };
    if p19 != s.len() {
        return None;
    }
    let out = SearchResponse {
        current_page: f_current_page,
        limit: f_limit,
        next_page: f_next_page,
        previous_page: f_previous_page,
        results: f_results,
        search_term: string_from_chars(term_chars),
        status: f_status,
        total_jokes: f_total_jokes,
        total_pages: f_total_pages,
    };
    proof {
        lemma_lit_at_combine(
            s@,
            0,
            "{\"current_page\":"@,
            int_json(f_current_page as int),
        );
        lemma_lit_at_combine(
            s@,
            0,
            "{\"current_page\":"@ + int_json(f_current_page as int),
            ",\"limit\":"@,
        );
        lemma_lit_at_combine(
            s@,
            0,
            "{\"current_page\":"@ + int_json(f_current_page as int) + ",\"limit\":"@,
            int_json(f_limit as int),
        );
        lemma_lit_at_combine(
            s@,
            0,
            "{\"current_page\":"@ + int_json(f_current_page as int) + ",\"limit\":"@ + int_json(f_limit as int),
            ",\"next_page\":"@,
        );
        lemma_lit_at_combine(
            s@,
            0,
            "{\"current_page\":"@ + int_json(f_current_page as int) + ",\"limit\":"@ + int_json(f_limit as int) + ",\"next_page\":"@,
            int_json(f_next_page as int),
        );
        lemma_lit_at_combine(
            s@,
            0,
            "{\"current_page\":"@ + int_json(f_current_page as int) + ",\"limit\":"@ + int_json(f_limit as int) + ",\"next_page\":"@ + int_json(f_next_page as int),
            ",\"previous_page\":"@,
        );
        lemma_lit_at_combine(
            s@,
            0,
            "{\"current_page\":"@ + int_json(f_current_page as int) + ",\"limit\":"@ + int_json(f_limit as int) + ",\"next_page\":"@ + int_json(f_next_page as int) + ",\"previous_page\":"@,
            int_json(f_previous_page as int),
        );
        lemma_lit_at_combine(
            s@,
            0,
            "{\"current_page\":"@ + int_json(f_current_page as int) + ",\"limit\":"@ + int_json(f_limit as int) + ",\"next_page\":"@ + int_json(f_next_page as int) + ",\"previous_page\":"@ + int_json(f_previous_page as int),
            ",\"results\":"@,
        );
        lemma_lit_at_combine(
            s@,
            0,
            "{\"current_page\":"@ + int_json(f_current_page as int) + ",\"limit\":"@ + int_json(f_limit as int) + ",\"next_page\":"@ + int_json(f_next_page as int) + ",\"previous_page\":"@ + int_json(f_previous_page as int) + ",\"results\":"@,
            jokes_json(g_results),
        );
        lemma_lit_at_combine(
            s@,
            0,
            "{\"current_page\":"@ + int_json(f_current_page as int) + ",\"limit\":"@ + int_json(f_limit as int) + ",\"next_page\":"@ + int_json(f_next_page as int) + ",\"previous_page\":"@ + int_json(f_previous_page as int) + ",\"results\":"@ + jokes_json(g_results),
            ",\"search_term\":"@,
        );
        lemma_lit_at_combine(
            s@,
            0,
            "{\"current_page\":"@ + int_json(f_current_page as int) + ",\"limit\":"@ + int_json(f_limit as int) + ",\"next_page\":"@ + int_json(f_next_page as int) + ",\"previous_page\":"@ + int_json(f_previous_page as int) + ",\"results\":"@ + jokes_json(g_results) + ",\"search_term\":"@,
            str_json(g_term),
        );
        lemma_lit_at_combine(
            s@,
            0,
            "{\"current_page\":"@ + int_json(f_current_page as int) + ",\"limit\":"@ + int_json(f_limit as int) + ",\"next_page\":"@ + int_json(f_next_page as int) + ",\"previous_page\":"@ + int_json(f_previous_page as int) + ",\"results\":"@ + jokes_json(g_results) + ",\"search_term\":"@ + str_json(g_term),
            ",\"status\":"@,
        );
        lemma_lit_at_combine(
            s@,
            0,
            "{\"current_page\":"@ + int_json(f_current_page as int) + ",\"limit\":"@ + int_json(f_limit as int) + ",\"next_page\":"@ + int_json(f_next_page as int) + ",\"previous_page\":"@ + int_json(f_previous_page as int) + ",\"results\":"@ + jokes_json(g_results) + ",\"search_term\":"@ + str_json(g_term) + ",\"status\":"@,
            int_json(f_status as int),
        );
        lemma_lit_at_combine(
            s@,
            0,
            "{\"current_page\":"@ + int_json(f_current_page as int) + ",\"limit\":"@ + int_json(f_limit as int) + ",\"next_page\":"@ + int_json(f_next_page as int) + ",\"previous_page\":"@ + int_json(f_previous_page as int) + ",\"results\":"@ + jokes_json(g_results) + ",\"search_term\":"@ + str_json(g_term) + ",\"status\":"@ + int_json(f_status as int),
            ",\"total_jokes\":"@,
        );
        lemma_lit_at_combine(
            s@,
            0,
            "{\"current_page\":"@ + int_json(f_current_page as int) + ",\"limit\":"@ + int_json(f_limit as int) + ",\"next_page\":"@ + int_json(f_next_page as int) + ",\"previous_page\":"@ + int_json(f_previous_page as int) + ",\"results\":"@ + jokes_json(g_results) + ",\"search_term\":"@ + str_json(g_term) + ",\"status\":"@ + int_json(f_status as int) + ",\"total_jokes\":"@,
            int_json(f_total_jokes as int),
        );
        lemma_lit_at_combine(
            s@,
            0,
            "{\"current_page\":"@ + int_json(f_current_page as int) + ",\"limit\":"@ + int_json(f_limit as int) + ",\"next_page\":"@ + int_json(f_next_page as int) + ",\"previous_page\":"@ + int_json(f_previous_page as int) + ",\"results\":"@ + jokes_json(g_results) + ",\"search_term\":"@ + str_json(g_term) + ",\"status\":"@ + int_json(f_status as int) + ",\"total_jokes\":"@ + int_json(f_total_jokes as int),
            ",\"total_pages\":"@,
        );
        lemma_lit_at_combine(
            s@,
            0,
            "{\"current_page\":"@ + int_json(f_current_page as int) + ",\"limit\":"@ + int_json(f_limit as int) + ",\"next_page\":"@ + int_json(f_next_page as int) + ",\"previous_page\":"@ + int_json(f_previous_page as int) + ",\"results\":"@ + jokes_json(g_results) + ",\"search_term\":"@ + str_json(g_term) + ",\"status\":"@ + int_json(f_status as int) + ",\"total_jokes\":"@ + int_json(f_total_jokes as int) + ",\"total_pages\":"@,
            int_json(f_total_pages as int),
        );
        lemma_lit_at_combine(
            s@,
            0,
            "{\"current_page\":"@ + int_json(f_current_page as int) + ",\"limit\":"@ + int_json(f_limit as int) + ",\"next_page\":"@ + int_json(f_next_page as int) + ",\"previous_page\":"@ + int_json(f_previous_page as int) + ",\"results\":"@ + jokes_json(g_results) + ",\"search_term\":"@ + str_json(g_term) + ",\"status\":"@ + int_json(f_status as int) + ",\"total_jokes\":"@ + int_json(f_total_jokes as int) + ",\"total_pages\":"@ + int_json(f_total_pages as int),
            "}"@,
        );
        assert(search_json(out@) == "{\"current_page\":"@ + int_json(f_current_page as int) + ",\"limit\":"@ + int_json(f_limit as int) + ",\"next_page\":"@ + int_json(f_next_page as int) + ",\"previous_page\":"@ + int_json(f_previous_page as int) + ",\"results\":"@ + jokes_json(g_results) + ",\"search_term\":"@ + str_json(g_term) + ",\"status\":"@ + int_json(f_status as int) + ",\"total_jokes\":"@ + int_json(f_total_jokes as int) + ",\"total_pages\":"@ + int_json(f_total_pages as int) + "}"@);
        assert(s@ =~= search_json(out@)) by {
            assert(lit_at(s@, 0, search_json(out@)));
            assert(s@.len() == search_json(out@).len());
            assert(s@.subrange(0, s@.len() as int) =~= s@);
        }
        assert(search_wf(out@));
        assert forall|v: SearchResponseV| search_doc(s@, v) implies out@ == v by {
            lemma_search_at_pieces(s@, v);
        }
    }
    Some(out)
}


/// A body in which the text `"joke":` appears nowhere is not the wire form
/// of any well-formed random-joke response: under a success status such a
/// body can only fail to decode.
pub proof fn lemma_missing_joke_field(body: Seq<char>)
    requires
        forall|i: int|
            0 <= i && i + 7 <= body.len() ==> #[trigger] body.subrange(i, i + 7) != "\"joke\":"@,
    ensures
        forall|v: SuccessfulResponseV| succ_wf(v) ==> body != succ_json(v),
{
    assert forall|v: SuccessfulResponseV| succ_wf(v) implies body != succ_json(v) by {
        if body == succ_json(v) {
            lemma_succ_at_pieces(body, v);
            let o: int = "{\"id\":"@.len() as int + str_json(v.id).len() + ",\"status\":"@.len()
                + int_json(v.status).len();
            assert(lit_at(body, o, ",\"joke\":"@));
            reveal_strlit(",\"joke\":");
            reveal_strlit("\"joke\":");
            assert(body.subrange(o, o + 8) == ",\"joke\":"@);
            assert(body.subrange(o + 1, o + 8) =~= body.subrange(o, o + 8).subrange(1, 8));
            assert(body.subrange(o, o + 8).subrange(1, 8) =~= "\"joke\":"@);
            assert(body.subrange(o + 1, o + 1 + 7) == "\"joke\":"@);
            assert(false);
        }
    }
}

/// Re-serializing the results of a decoded search document reproduces,
/// character for character, the results segment of the original document:
/// element order and count are preserved by the round trip.
pub proof fn lemma_results_round_trip(body: Seq<char>, v: SearchResponseV)
    requires
        search_doc(body, v),
    ensures
        exists|a: int|
            0 <= a && a + jokes_json(v.results).len() <= body.len() && #[trigger] body.subrange(
                a,
                a + jokes_json(v.results).len(),
            ) == jokes_json(v.results),
{
    lemma_search_at_pieces(body, v);
    let o9: int = "{\"current_page\":"@.len() as int + int_json(v.current_page).len()
        + ",\"limit\":"@.len() + int_json(v.limit).len() + ",\"next_page\":"@.len() + int_json(
        v.next_page,
    ).len() + ",\"previous_page\":"@.len() + int_json(v.previous_page).len()
        + ",\"results\":"@.len();
    assert(lit_at(body, o9, jokes_json(v.results)));
    assert(0 <= o9 && o9 + jokes_json(v.results).len() <= body.len() && body.subrange(
        o9,
        o9 + jokes_json(v.results).len(),
    ) == jokes_json(v.results));
}

} // verus!
