//! The client's pure halves: turning an input line into a request,
//! and a reply into the text the user sees.

use vstd::prelude::*;
use vstd::string::StringSliceAdditionalSpecFns;

verus! {

use crate::num::dec_digits_signed;
use crate::resp::{Data, Val, elems_view, lemma_elems_view};

/// ASCII whitespace, as the line splitter sees it.
pub open spec fn is_ws(b: u8) -> bool {
    b == 32 || 9 <= b <= 13
}

/// Left-to-right whitespace split: `cur` is the token being gathered,
/// `acc` the tokens already cut.
pub open spec fn split_ws(s: Seq<u8>, i: int, cur: Seq<u8>, acc: Seq<Seq<u8>>) -> Seq<Seq<u8>>
    decreases s.len() - i,
{
    if i < 0 || i >= s.len() {
        if cur.len() > 0 {
            acc.push(cur)
        } else {
            acc
        }
    } else if is_ws(s[i]) {
        if cur.len() > 0 {
            split_ws(s, i + 1, Seq::empty(), acc.push(cur))
        } else {
            split_ws(s, i + 1, cur, acc)
        }
    } else {
        split_ws(s, i + 1, cur.push(s[i]), acc)
    }
}

/// The whitespace-separated tokens of a line.
pub open spec fn tokens(s: Seq<u8>) -> Seq<Seq<u8>> {
    split_ws(s, 0, Seq::empty(), Seq::empty())
}

/// Each token as a bulk string element.
pub open spec fn bulks(ts: Seq<Seq<u8>>) -> Seq<Val> {
    Seq::new(ts.len(), |i: int| Val::Bulk(ts[i]))
}

/// The token each gathered element carries; the builder only ever
/// pushes bulk strings.
pub open spec fn token_seq(es: Seq<Data>) -> Seq<Seq<u8>> {
    Seq::new(
        es.len(),
        |j: int| match es[j] {
            Data::Bulk(b) => b@,
            _ => Seq::empty(),
        },
    )
}

/// Split one input line into tokens and frame them as a request
/// array, every token a bulk string.
pub fn request_from_line(line: &Vec<u8>) -> (r: Data)
    ensures
        r@ == Val::Array(bulks(tokens(line@))),
{
    let mut elems: Vec<Data> = Vec::new();
    let mut cur: Vec<u8> = Vec::new();
    let mut i: usize = 0;
    proof {
        assert(token_seq(elems@) =~= Seq::<Seq<u8>>::empty());
    }
    while i < line.len()
        invariant
            i <= line@.len(),
            tokens(line@) == split_ws(line@, i as int, cur@, token_seq(elems@)),
            forall|j: int| 0 <= j < elems@.len() ==> (#[trigger] elems@[j]) is Bulk,
        decreases line@.len() - i,
    {
        let b = line[i];
        if b == 32 || (9 <= b && b <= 13) {
            if cur.len() > 0 {
                let done = cur;
                cur = Vec::new();
                let ghost toks_pre = token_seq(elems@);
                elems.push(Data::Bulk(done));
                proof {
                    assert(token_seq(elems@) =~= toks_pre.push(done@));
                }
            }
        } else {
            cur.push(b);
        }
        i = i + 1;
    }
    let ghost toks_pre = token_seq(elems@);
    if cur.len() > 0 {
        elems.push(Data::Bulk(cur));
        proof {
            assert(token_seq(elems@) =~= toks_pre.push(cur@));
        }
    }
    proof {
        lemma_elems_view(elems@);
        assert(elems_view(elems@) =~= bulks(token_seq(elems@)));
    }
    Data::Array(elems)
}

/// The line break the renderer writes after each value.
pub open spec fn nl() -> Seq<u8> {
    seq![10u8]
}

/// The text shown for the absence markers.
pub open spec fn nil_text() -> Seq<u8> {
    "(nil)".spec_bytes()
}

/// The text one reply element renders to: its payload bytes and a
/// line break; a nested array renders nothing, as no reply carries
/// one.
pub open spec fn render_elem(v: Val) -> Seq<u8> {
    match v {
        Val::SimpleString(s) => s + nl(),
        Val::Error(e) => e + nl(),
        Val::Integer(i) => dec_digits_signed(i) + nl(),
        Val::Bulk(b) => b + nl(),
        Val::NullBulk => nil_text() + nl(),
        Val::NullArray => nil_text() + nl(),
        Val::Array(_) => Seq::empty(),
    }
}

pub open spec fn render_elems(vs: Seq<Val>) -> Seq<u8>
    decreases vs,
{
    if vs.len() == 0 {
        Seq::empty()
    } else {
        render_elems(vs.drop_last()) + render_elem(vs.last())
    }
}

/// The text one reply renders to: an array renders each element on
/// its own line.
pub open spec fn render_spec(v: Val) -> Seq<u8> {
    match v {
        Val::Array(es) => render_elems(es),
        _ => render_elem(v),
    }
}

fn render_one(data: &Data, out: &mut Vec<u8>)
    ensures
        final(out)@ == old(out)@ + render_elem(data@),
{
    match data {
        Data::SimpleString(s) => {
            crate::resp::push_all(out, s);
            out.push(10);
        },
        Data::Error(e) => {
            crate::resp::push_all(out, e);
            out.push(10);
        },
        Data::Integer(i) => {
            crate::num::push_dec_i64(*i, out);
            out.push(10);
        },
        Data::Bulk(b) => {
            crate::resp::push_all(out, b);
            out.push(10);
        },
        Data::NullBulk | Data::NullArray => {
            let nil = crate::resp::ascii_bytes("(nil)");
            crate::resp::push_all(out, &nil);
            out.push(10);
        },
        Data::Array(_) => {
        },
    }
    proof {
        assert(out@ =~= old(out)@ + render_elem(data@));
    }
}

/// Render one reply to the text the user sees.
pub fn render(data: &Data) -> (r: Vec<u8>)
    ensures
        r@ == render_spec(data@),
{
    let mut out: Vec<u8> = Vec::new();
    match data {
        Data::Array(a) => {
            proof {
                lemma_elems_view(a@);
            }
            let mut i: usize = 0;
            while i < a.len()
                invariant
                    i <= a@.len(),
                    elems_view(a@).len() == a@.len(),
                    forall|j: int|
                        0 <= j < a@.len() ==> elems_view(a@)[j] == crate::resp::data_view(
                            #[trigger] a@[j],
                        ),
                    out@ == render_elems(elems_view(a@).subrange(0, i as int)),
                decreases a@.len() - i,
            {
                render_one(&a[i], &mut out);
                proof {
                    let vs = elems_view(a@);
                    assert(vs.subrange(0, i + 1).drop_last() =~= vs.subrange(0, i as int));
                    assert(vs.subrange(0, i + 1).last() == crate::resp::data_view(a@[i as int]));
                }
                i = i + 1;
            }
            proof {
                assert(elems_view(a@).subrange(0, a@.len() as int) =~= elems_view(a@));
            }
            out
        },
        _ => {
            render_one(data, &mut out);
            out
        },
    }
}

} // verus!
