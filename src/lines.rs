//! Splitting the bytes of a file into text lines.
//!
//! A line ends at a line feed; the feed, and a carriage return right before it,
//! are not part of the line. A last line without a feed counts when it is not
//! empty. A line whose bytes are not valid UTF-8 is skipped: one malformed line
//! costs that line only, not the rest of the file.
use vstd::prelude::*;
use vstd::utf8::*;

verus! {

/// Line feed.
pub const LF: u8 = 10;

/// Carriage return.
pub const CR: u8 = 13;

/// The number of line feeds in `b`.
pub open spec fn breaks(b: Seq<u8>) -> nat
    decreases b.len(),
{
    if b.len() == 0 {
        0
    } else {
        breaks(b.drop_last()) + if b.last() == LF {
            1nat
        } else {
            0nat
        }
    }
}

/// `b` cut at every line feed, the feeds left out: one more piece than feeds.
pub open spec fn pieces(b: Seq<u8>) -> Seq<Seq<u8>>
    decreases b.len(),
{
    if b.len() == 0 {
        seq![Seq::empty()]
    } else {
        let p = pieces(b.drop_last());
        if b.last() == LF {
            p.push(Seq::empty())
        } else {
            p.update(p.len() - 1, p.last().push(b.last()))
        }
    }
}

/// A terminated line without the carriage return that may end it.
pub open spec fn drop_cr(l: Seq<u8>) -> Seq<u8> {
    if l.len() > 0 && l.last() == CR {
        l.drop_last()
    } else {
        l
    }
}

/// The lines that a line feed ends, carriage returns dropped.
pub open spec fn terminated(b: Seq<u8>) -> Seq<Seq<u8>> {
    pieces(b).drop_last().map_values(|l: Seq<u8>| drop_cr(l))
}

/// What follows the last line feed.
pub open spec fn tail(b: Seq<u8>) -> Seq<u8> {
    pieces(b).last()
}

/// The lines of `b` as bytes, before decoding.
pub open spec fn raw_lines(b: Seq<u8>) -> Seq<Seq<u8>> {
    if tail(b).len() == 0 {
        terminated(b)
    } else {
        terminated(b).push(tail(b))
    }
}

/// The text that `l` encodes, if it is valid UTF-8.
pub open spec fn decoded(l: Seq<u8>) -> Option<Seq<char>> {
    if valid_utf8(l) {
        Some(decode_utf8(l))
    } else {
        None
    }
}

/// The decodable lines among `ls`, decoded, in order.
pub open spec fn kept(ls: Seq<Seq<u8>>) -> Seq<Seq<char>> {
    ls.filter_map(|l: Seq<u8>| decoded(l))
}

/// The text lines of a file whose content is `b`.
pub open spec fn file_lines(b: Seq<u8>) -> Seq<Seq<char>> {
    kept(raw_lines(b))
}

/// The texts of a sequence of strings.
pub open spec fn texts(v: Seq<String>) -> Seq<Seq<char>> {
    v.map_values(|s: String| s@)
}

/// Relies on `String::from_utf8`: `Ok` with the decoded text exactly when the
/// bytes are valid UTF-8.
#[verifier::external_body]
fn decode(b: Vec<u8>) -> (r: Option<String>)
    ensures
        r matches Some(s) ==> valid_utf8(b@) && s@ == decode_utf8(b@),
        r is None ==> !valid_utf8(b@),
{
    String::from_utf8(b).ok()
}

/// There is one more piece than line feeds.
pub proof fn lemma_pieces_len(b: Seq<u8>)
    ensures
        pieces(b).len() == breaks(b) + 1,
    decreases b.len(),
{
    if b.len() > 0 {
        lemma_pieces_len(b.drop_last());
    }
}

/// The tail is empty exactly when `b` is empty or ends in a line feed.
pub proof fn lemma_tail_empty(b: Seq<u8>)
    ensures
        tail(b).len() == 0 <==> (b.len() == 0 || b.last() == LF),
{
    if b.len() > 0 {
        lemma_pieces_len(b.drop_last());
    }
}

/// Keeping the lines of `ls` followed by `l`.
pub proof fn lemma_kept_push(ls: Seq<Seq<u8>>, l: Seq<u8>)
    ensures
        kept(ls.push(l)) == match decoded(l) {
            Some(t) => kept(ls).push(t),
            None => kept(ls),
        },
{
    assert(ls.push(l).drop_last() =~= ls);
    assert(ls.push(l).last() == l);
    match decoded(l) {
        Some(t) => {
            assert(kept(ls) + seq![t] =~= kept(ls).push(t));
        },
        None => {},
    }
}

/// No more lines are kept than there are, and all of them when all decode.
pub proof fn lemma_kept_len(ls: Seq<Seq<u8>>)
    ensures
        kept(ls).len() <= ls.len(),
        (forall|k: int| 0 <= k < ls.len() ==> valid_utf8(#[trigger] ls[k])) ==> kept(ls).len()
            == ls.len(),
    decreases ls.len(),
{
    if ls.len() > 0 {
        let init = ls.drop_last();
        lemma_kept_len(init);
        assert(init.push(ls.last()) =~= ls);
        lemma_kept_push(init, ls.last());
        if forall|k: int| 0 <= k < ls.len() ==> valid_utf8(#[trigger] ls[k]) {
            assert forall|k: int| 0 <= k < init.len() implies valid_utf8(#[trigger] init[k]) by {
                assert(init[k] == ls[k]);
            }
            assert(valid_utf8(ls[ls.len() - 1]));
        }
    }
}

/// Splits the content of a file into its text lines.
pub fn split_lines(b: &Vec<u8>) -> (r: Vec<String>)
    ensures
        texts(r@) == file_lines(b@),
{
    let mut out: Vec<String> = Vec::new();
    let mut cur: Vec<u8> = Vec::new();
    let n = b.len();
    assert(b@.take(0) =~= Seq::<u8>::empty());
    assert(texts(out@) =~= kept(Seq::<Seq<u8>>::empty()));
    for i in 0..n
        invariant
            n == b.len(),
            cur@ == tail(b@.take(i as int)),
            texts(out@) == kept(terminated(b@.take(i as int))),
    {
        let ghost before = b@.take(i as int);
        let ghost after = b@.take(i + 1);
        assert(after.drop_last() =~= before);
        proof {
            lemma_pieces_len(before);
        }
        let x = b[i];
        if x == LF {
            let mut line = cur;
            cur = Vec::new();
            if line.len() > 0 && line[line.len() - 1] == CR {
                line.pop();
            }
            assert(line@ == drop_cr(tail(before)));
            proof {
                let p = pieces(before);
                assert(pieces(after).drop_last() =~= p);
                assert(p =~= p.drop_last().push(tail(before)));
                assert(terminated(after) =~= terminated(before).push(line@));
                lemma_kept_push(terminated(before), line@);
            }
            let dec = decode(line);
            match dec {
                Some(s) => {
                    out.push(s);
                    assert(texts(out@) =~= kept(terminated(after)));
                },
                None => {},
            }
            assert(cur@ =~= tail(after));
        } else {
            cur.push(x);
            proof {
                assert(pieces(after).drop_last() =~= pieces(before).drop_last());
                assert(terminated(after) =~= terminated(before));
            }
        }
    }
    assert(b@.take(n as int) =~= b@);
    if cur.len() > 0 {
        proof {
            lemma_kept_push(terminated(b@), cur@);
        }
        let dec = decode(cur);
        match dec {
            Some(s) => {
                out.push(s);
                assert(texts(out@) =~= file_lines(b@));
            },
            None => {},
        }
    }
    out
}

} // verus!
