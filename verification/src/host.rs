//! The JACK host's own text handling: connection lists and the names of the
//! ports that it registers.
use vstd::prelude::*;
use crate::http::{comma_free, join, lemma_join_cons, lemma_split_join};
use crate::text::{chars_of, decimal, find, lemma_find, occurs_at, push_chars, render_decimal,
    split, split_chars, string_of, views};

verus! {

broadcast use vstd::string::group_string_axioms;

/// The pairs of a connection list `a->b,c->d,...`: for each comma-separated
/// piece, the text before its first `->` and the text between that and the
/// next `->` (or the end).
pub open spec fn spec_parse_connections(s: Seq<char>) -> Seq<(Seq<char>, Seq<char>)> {
    let pieces = split(s, seq![',']);
    Seq::new(
        pieces.len(),
        |i: int|
            {
                let ports = split(pieces[i], "->"@);
                (ports[0], ports[1])
            },
    )
}

/// Whether every comma-separated piece of `s` holds a `->`.
pub open spec fn connections_well_formed(s: Seq<char>) -> bool {
    forall|i: int|
        0 <= i < split(s, seq![',']).len() ==> #[trigger] split(split(s, seq![','])[i], "->"@).len()
            >= 2
}

/// Reads a connection list `a->b,c->d,...`.
pub fn parse_connections(unparsed_connections: &str) -> (r: Vec<(String, String)>)
    requires
        connections_well_formed(unparsed_connections@),
    ensures
        r@.map_values(|p: (String, String)| (p.0@, p.1@)) == spec_parse_connections(
            unparsed_connections@,
        ),
{
    proof {
        reveal_strlit("->");
    }
    let s = chars_of(unparsed_connections);
    let mut comma: Vec<char> = Vec::new();
    comma.push(',');
    assert(comma@ =~= seq![',']);
    let arrow = chars_of("->");
    let pieces = split_chars(&s, &comma);
    let ghost want = spec_parse_connections(s@);
    let mut r: Vec<(String, String)> = Vec::new();
    let mut k: usize = 0;
    while k < pieces.len()
        invariant
            k <= pieces.len(),
            arrow@ == "->"@,
            arrow@.len() == 2,
            views(pieces@) == split(s@, seq![',']),
            connections_well_formed(s@),
            want == spec_parse_connections(s@),
            r@.map_values(|p: (String, String)| (p.0@, p.1@)) == want.take(k as int),
        decreases pieces.len() - k,
    {
        assert(pieces@[k as int]@ == split(s@, seq![','])[k as int]);
        let ports = split_chars(&pieces[k], &arrow);
        assert(split(split(s@, seq![','])[k as int], "->"@).len() >= 2);
        assert(views(ports@)[0] == ports@[0]@);
        assert(views(ports@)[1] == ports@[1]@);
        let a = string_of(&ports[0]);
        let b = string_of(&ports[1]);
        let ghost old_r = r@.map_values(|p: (String, String)| (p.0@, p.1@));
        let ghost pair = (a@, b@);
        r.push((a, b));
        assert(r@.map_values(|p: (String, String)| (p.0@, p.1@)) =~= old_r.push(pair));
        k = k + 1;
        assert(r@.map_values(|p: (String, String)| (p.0@, p.1@)) =~= want.take(k as int));
    }
    assert(want.take(k as int) =~= want);
    r
}

/// Whether `s` can stand as a port name in a connection list: it holds no
/// comma and no `->`.
pub open spec fn list_safe(s: Seq<char>) -> bool {
    &&& comma_free(s)
    &&& forall|j: int| !#[trigger] occurs_at(s, "->"@, j)
}

/// The connection list `a->b,c->d,...` of `pairs`.
pub open spec fn render_connections(pairs: Seq<(Seq<char>, Seq<char>)>) -> Seq<char> {
    join(Seq::new(pairs.len(), |k: int| pairs[k].0 + "->"@ + pairs[k].1), seq![','])
}

/// Splitting `a->b` at `->` gives `a` and `b`, when neither holds `->`.
proof fn lemma_split_arrow(a: Seq<char>, b: Seq<char>)
    requires
        forall|j: int| !#[trigger] occurs_at(a, "->"@, j),
        forall|j: int| !#[trigger] occurs_at(b, "->"@, j),
    ensures
        split(a + "->"@ + b, "->"@) == seq![a, b],
{
    reveal_strlit("->");
    let arrow = "->"@;
    assert(arrow =~= seq!['-', '>']);
    let s = a + arrow + b;
    lemma_find(s, arrow);
    assert(s.subrange(a.len() as int, a.len() as int + 2) =~= arrow);
    assert(occurs_at(s, arrow, a.len() as int));
    match find(s, arrow) {
        None => {},
        Some(k) => {
            if k < a.len() {
                if k + 2 <= a.len() {
                    assert(a.subrange(k, k + 2) =~= s.subrange(k, k + 2));
                    assert(occurs_at(a, arrow, k));
                } else {
                    assert(s.subrange(k, k + 2)[1] == s[k + 1]);
                    assert(s[k + 1] == '-');
                }
            } else if k > a.len() {
                assert(!occurs_at(s, arrow, a.len() as int));
            }
        },
    }
    assert(find(s, arrow) == Some(a.len() as int));
    assert(s.take(a.len() as int) =~= a);
    assert(s.skip(a.len() as int + 2) =~= b);
    lemma_find(b, arrow);
    match find(b, arrow) {
        None => {},
        Some(k) => {
            assert(occurs_at(b, arrow, k));
        },
    }
    assert(split(b, arrow) == seq![b]);
    assert(split(s, arrow) =~= seq![a] + seq![b]);
}

/// Reading back a connection list gives the connections that it was written
/// from: for a nonempty list of pairs whose port names hold no comma and no
/// `->`, the list `a->b,c->d,...` is well formed and reads back as the pairs.
pub proof fn law_connections_read_back(pairs: Seq<(Seq<char>, Seq<char>)>)
    requires
        pairs.len() > 0,
        forall|k: int| 0 <= k < pairs.len() ==> list_safe((#[trigger] pairs[k]).0) && list_safe(pairs[k].1),
    ensures
        connections_well_formed(render_connections(pairs)),
        spec_parse_connections(render_connections(pairs)) == pairs,
{
    reveal_strlit("->");
    let arrow = "->"@;
    assert(arrow =~= seq!['-', '>']);
    let pieces = Seq::new(pairs.len(), |k: int| pairs[k].0 + "->"@ + pairs[k].1);
    let s = render_connections(pairs);
    assert forall|k: int| 0 <= k < pieces.len() implies comma_free(#[trigger] pieces[k]) by {
        assert(list_safe(pairs[k].0) && list_safe(pairs[k].1));
        let p = pieces[k];
        let a = pairs[k].0;
        assert forall|i: int| 0 <= i < p.len() implies #[trigger] p[i] != ',' by {
            if i < a.len() {
                assert(p[i] == a[i]);
            } else if i < a.len() + 2 {
            } else {
                assert(p[i] == pairs[k].1[i - a.len() - 2]);
            }
        }
    }
    lemma_split_join(pieces);
    assert(split(s, seq![',']) == pieces);
    assert forall|k: int| 0 <= k < pieces.len() implies #[trigger] split(pieces[k], "->"@) == seq![
        pairs[k].0,
        pairs[k].1,
    ] by {
        assert(list_safe(pairs[k].0) && list_safe(pairs[k].1));
        lemma_split_arrow(pairs[k].0, pairs[k].1);
    }
    assert forall|i: int| 0 <= i < split(s, seq![',']).len() implies #[trigger] split(
        split(s, seq![','])[i],
        "->"@,
    ).len() >= 2 by {
        assert(split(pieces[i], "->"@) == seq![pairs[i].0, pairs[i].1]);
    }
    assert(spec_parse_connections(s) =~= pairs);
}

/// The name of the next port of a kind that the host registers: the kind
/// (`in`, `out`, `midi_in` or `midi_out`) and one more than the number of
/// ports of that kind already registered.
pub fn local_port_name(kind: &str, registered: usize) -> (s: String)
    requires
        registered < usize::MAX,
    ensures
        s@ == kind@ + decimal(registered as nat + 1),
{
    let mut v = chars_of(kind);
    let d = render_decimal((registered + 1) as u64);
    push_chars(&mut v, &d);
    string_of(&v)
}

} // verus!
