use vstd::prelude::*;
use vstd::string::StringExecFns;
use crate::digits::int_json;
use crate::responses::{Joke, JokeV, SearchResponseV, SuccessfulResponseV};

verus! {

// The wire format this library speaks is the JSON the joke service answers
// with, pinned down exactly: one flat object per response shape, the fields
// in the order the shapes list them, string values written verbatim between
// quotes, integer values in plain decimal. A body that deviates from this
// grammar (reordered, missing, extra or mistyped fields, escape sequences,
// stray whitespace) does not decode.

/// Whether `c` may stand verbatim inside a string value of the wire
/// format: anything but a quote, a backslash, or one of the common
/// control characters.
pub open spec fn plain_char(c: char) -> bool {
    c != '"' && c != '\\' && c != '\n' && c != '\t' && c != '\r'
}

/// Whether every character of `s` may stand verbatim in a string value.
pub open spec fn plain_str(s: Seq<char>) -> bool {
    forall|i: int| 0 <= i < s.len() ==> plain_char(s[i])
}

/// Wire form of a string value: a quote, the characters, a quote.
pub open spec fn str_json(s: Seq<char>) -> Seq<char> {
    seq!['"'] + s + seq!['"']
}

/// Whether an integer fits the 32-bit fields of the response records.
pub open spec fn in_i32_range(i: int) -> bool {
    i32::MIN <= i <= i32::MAX
}

/// Well-formedness of a joke record with respect to the wire format.
pub open spec fn joke_wf(j: JokeV) -> bool {
    plain_str(j.id) && plain_str(j.joke)
}

/// Wire form of one joke record.
pub open spec fn joke_json(j: JokeV) -> Seq<char> {
    "{\"id\":"@ + str_json(j.id) + ",\"joke\":"@ + str_json(j.joke) + "}"@
}

/// Well-formedness of a random-joke response record.
pub open spec fn succ_wf(v: SuccessfulResponseV) -> bool {
    plain_str(v.id) && plain_str(v.joke) && in_i32_range(v.status)
}

/// Wire form of a random-joke response.
pub open spec fn succ_json(v: SuccessfulResponseV) -> Seq<char> {
    "{\"id\":"@ + str_json(v.id) + ",\"status\":"@ + int_json(v.status) + ",\"joke\":"@
        + str_json(v.joke) + "}"@
}

/// Well-formedness of a joke sequence.
pub open spec fn jokes_wf(js: Seq<JokeV>) -> bool {
    forall|i: int| 0 <= i < js.len() ==> joke_wf(#[trigger] js[i])
}

/// Wire form of the elements of a results array, comma separated.
pub open spec fn jokes_items(js: Seq<JokeV>) -> Seq<char>
    decreases js.len(),
{
    if js.len() == 0 {
        Seq::empty()
    } else if js.len() == 1 {
        joke_json(js[0])
    } else {
        joke_json(js[0]) + seq![','] + jokes_items(js.skip(1))
    }
}

/// Wire form of a results array.
pub open spec fn jokes_json(js: Seq<JokeV>) -> Seq<char> {
    seq!['['] + jokes_items(js) + seq![']']
}

/// Well-formedness of a search response record.
pub open spec fn search_wf(v: SearchResponseV) -> bool {
    in_i32_range(v.current_page) && in_i32_range(v.limit) && in_i32_range(v.next_page)
        && in_i32_range(v.previous_page) && jokes_wf(v.results) && plain_str(v.search_term)
        && in_i32_range(v.status) && in_i32_range(v.total_jokes) && in_i32_range(v.total_pages)
}

/// Wire form of a search response.
pub open spec fn search_json(v: SearchResponseV) -> Seq<char> {
    "{\"current_page\":"@ + int_json(v.current_page) + ",\"limit\":"@ + int_json(v.limit)
        + ",\"next_page\":"@ + int_json(v.next_page) + ",\"previous_page\":"@ + int_json(
        v.previous_page,
    ) + ",\"results\":"@ + jokes_json(v.results) + ",\"search_term\":"@ + str_json(v.search_term)
        + ",\"status\":"@ + int_json(v.status) + ",\"total_jokes\":"@ + int_json(v.total_jokes)
        + ",\"total_pages\":"@ + int_json(v.total_pages) + "}"@
}

/// Appending one element to a joke sequence appends a comma (when the
/// sequence was non-empty) and the element's wire form to the items.
pub proof fn lemma_jokes_items_push(js: Seq<JokeV>, j: JokeV)
    ensures
        js.len() == 0 ==> jokes_items(js.push(j)) == joke_json(j),
        js.len() > 0 ==> jokes_items(js.push(j)) == jokes_items(js) + seq![','] + joke_json(j),
    decreases js.len(),
{
    let p = js.push(j);
    if js.len() == 0 {
        assert(p.len() == 1);
        assert(p[0] == j);
        assert(jokes_items(p) == joke_json(j));
    } else {
        lemma_jokes_items_push(js.skip(1), j);
        assert(p.skip(1) =~= js.skip(1).push(j));
        assert(p[0] == js[0]);
        if js.len() == 1 {
            assert(jokes_items(p) == joke_json(p[0]) + seq![','] + jokes_items(p.skip(1)));
            assert(jokes_items(js.skip(1)) =~= Seq::<char>::empty());
            assert(jokes_items(js) + seq![','] + joke_json(j) =~= joke_json(js[0]) + seq![',']
                + joke_json(j));
            assert(jokes_items(p) =~= jokes_items(js) + seq![','] + joke_json(j));
        } else {
            assert(jokes_items(p) == joke_json(p[0]) + seq![','] + jokes_items(p.skip(1)));
            assert(jokes_items(js) == joke_json(js[0]) + seq![','] + jokes_items(js.skip(1)));
            assert(jokes_items(p) =~= jokes_items(js) + seq![','] + joke_json(j));
        }
    }
}

/// The wire form of a joke record, written with the quotes folded into
/// the surrounding punctuation.
pub proof fn lemma_joke_json_flat(j: JokeV)
    ensures
        joke_json(j) == "{\"id\":\""@ + j.id + "\",\"joke\":\""@ + j.joke + "\"}"@,
{
    reveal_strlit("{\"id\":\"");
    reveal_strlit("\",\"joke\":\"");
    reveal_strlit("\"}");
    reveal_strlit("{\"id\":");
    reveal_strlit(",\"joke\":");
    reveal_strlit("}");
    assert(("{\"id\":\""@) =~= "{\"id\":"@ + seq!['"']);
    assert(("\",\"joke\":\""@) =~= seq!['"'] + ",\"joke\":"@ + seq!['"']);
    assert(("\"}"@) =~= seq!['"'] + "}"@);
    assert(joke_json(j) =~= "{\"id\":\""@ + j.id + "\",\"joke\":\""@ + j.joke + "\"}"@);
}

/// Wire form of one joke record, serialized.
pub fn render_joke(j: &Joke) -> (r: String)
    ensures
        r@ == joke_json(j@),
{
    let mut s = String::from_str("{\"id\":\"");
    s.append(j.id.as_str());
    s.append("\",\"joke\":\"");
    s.append(j.joke.as_str());
    s.append("\"}");
    proof {
        lemma_joke_json_flat(j@);
        assert(s@ == "{\"id\":\""@ + j.id@ + "\",\"joke\":\""@ + j.joke@ + "\"}"@);
    }
    s
}

/// Re-serialization of a decoded results sequence: the wire form of the
/// array, element order and count preserved.
pub fn render_jokes(js: &Vec<Joke>) -> (r: String)
    ensures
        r@ == jokes_json(js@.map(|i: int, j: Joke| j@)),
{
    let ghost gjs: Seq<JokeV> = js@.map(|i: int, j: Joke| j@);
    proof {
        reveal_strlit("[");
        reveal_strlit("]");
        reveal_strlit(",");
    }
    let mut s = String::from_str("[");
    let mut i: usize = 0;
    proof {
        assert(gjs.take(0) =~= Seq::<JokeV>::empty());
        assert(s@ =~= seq!['['] + jokes_items(gjs.take(0)));
    }
    while i < js.len()
        invariant
            i <= js.len(),
            gjs == js@.map(|i: int, j: Joke| j@),
            s@ == seq!['['] + jokes_items(gjs.take(i as int)),
        decreases js.len() - i,
    {
        if i > 0 {
            s.append(",");
        }
        let piece = render_joke(&js[i]);
        s.append(piece.as_str());
        proof {
            reveal_strlit(",");
            let prev = gjs.take(i as int);
            lemma_jokes_items_push(prev, gjs[i as int]);
            assert(gjs.take(i + 1) =~= prev.push(gjs[i as int]));
            assert(gjs[i as int] == js@[i as int]@);
            assert((","@) =~= seq![',']);
            if i > 0 {
                assert(s@ =~= seq!['['] + (jokes_items(prev) + seq![','] + joke_json(
                    gjs[i as int],
                )));
            } else {
                assert(prev.len() == 0);
                assert(jokes_items(prev) =~= Seq::<char>::empty());
                assert(s@ =~= seq!['['] + joke_json(gjs[i as int]));
            }
            assert(s@ =~= seq!['['] + jokes_items(gjs.take(i + 1)));
        }
        i = i + 1;
    }
    s.append("]");
    proof {
        assert(gjs.take(js@.len() as int) =~= gjs);
        assert(s@ =~= jokes_json(gjs));
    }
    s
}

} // verus!
