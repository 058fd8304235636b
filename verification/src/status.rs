//! Parsing of the engine's machine-readable status output: NUL-separated
//! records, each a two-character status code, a space, and a path. A rename
//! or copy record is followed by one extra record holding the destination
//! path, and only the destination is retained. The final path list is
//! deduplicated and sorted so that it does not depend on the order in which
//! the engine enumerated the records.

use vstd::prelude::*;

use crate::text::{lemma_strict_sorted_unique, sorted_dedup, split_nonempty, split_nonempty_spec, strict_sorted};

verus! {

/// The paths contributed by a sequence of status records: a record shorter
/// than four characters is ignored; a rename or copy record (status code
/// starting `R` or `C`) contributes the following record, the destination,
/// in its place; any other record contributes its own path, the characters
/// after the two-character code and the space.
pub open spec fn extract_paths(entries: Seq<Seq<char>>) -> Seq<Seq<char>>
    decreases entries.len(),
{
    if entries.len() == 0 {
        Seq::<Seq<char>>::empty()
    } else {
        let e = entries[0];
        if e.len() < 4 {
            extract_paths(entries.drop_first())
        } else if (e[0] == 'R' || e[0] == 'C') && entries.len() >= 2 {
            seq![entries[1]] + extract_paths(entries.skip(2))
        } else {
            seq![e.skip(3)] + extract_paths(entries.drop_first())
        }
    }
}

/// The set of changed paths named by one status output: its NUL-separated
/// nonempty records, read as `extract_paths` reads them.
pub open spec fn status_paths(out: Seq<char>) -> Seq<Seq<char>> {
    extract_paths(split_nonempty_spec(out, '\0'))
}

/// Walks the records and collects the contributed paths, in record order.
fn extract_changed_paths(entries: &Vec<String>) -> (r: Vec<String>)
    ensures
        r.deep_view() == extract_paths(entries.deep_view()),
{
    let ghost dv = entries.deep_view();
    let mut r: Vec<String> = Vec::new();
    let mut i: usize = 0;
    proof {
        assert(dv.skip(0) =~= dv);
        assert(r.deep_view() =~= Seq::<Seq<char>>::empty());
        assert(Seq::<Seq<char>>::empty() + extract_paths(dv) =~= extract_paths(dv));
    }
    while i < entries.len()
        invariant
            dv == entries.deep_view(),
            dv.len() == entries.len(),
            i <= entries.len(),
            extract_paths(dv) == r.deep_view() + extract_paths(dv.skip(i as int)),
        decreases entries.len() - i,
    {
        let ghost rest = dv.skip(i as int);
        proof {
            assert(rest[0] == dv[i as int]);
            assert(rest.drop_first() =~= dv.skip(i + 1));
        }
        let e = &entries[i];
        let elen = e.as_str().unicode_len();
        if elen < 4 {
            i = i + 1;
        } else {
            let c0 = e.as_str().get_char(0);
            if (c0 == 'R' || c0 == 'C') && i + 1 < entries.len() {
                proof {
                    assert(rest.skip(2) =~= dv.skip(i + 2));
                    assert(rest[1] == dv[i + 1]);
                }
                let dest = entries[i + 1].clone();
                let ghost before = r.deep_view();
                r.push(dest);
                proof {
                    assert(r.deep_view() =~= before + seq![dv[i + 1]]);
                    assert(extract_paths(rest) == seq![dv[i + 1]] + extract_paths(dv.skip(i + 2)));
                }
                i = i + 2;
            } else {
                let path = e.as_str().substring_char(3, elen).to_owned();
                let ghost before = r.deep_view();
                r.push(path);
                proof {
                    assert(path@ =~= dv[i as int].skip(3));
                    assert(r.deep_view() =~= before + seq![dv[i as int].skip(3)]);
                    assert(extract_paths(rest) == seq![dv[i as int].skip(3)] + extract_paths(
                        dv.skip(i + 1),
                    ));
                }
                i = i + 1;
            }
        }
    }
    proof {
        assert(dv.skip(dv.len() as int) =~= Seq::<Seq<char>>::empty());
        assert(r.deep_view() + Seq::<Seq<char>>::empty() =~= r.deep_view());
    }
    r
}

/// The unique strictly increasing list holding exactly the given paths:
/// their deduplicated, sorted form.
pub open spec fn canonical_paths(ps: Seq<Seq<char>>) -> Seq<Seq<char>> {
    choose|r: Seq<Seq<char>>|
        strict_sorted(r) && (forall|p: Seq<char>|
            #![trigger r.contains(p)]
            #![trigger ps.contains(p)]
            r.contains(p) <==> ps.contains(p))
}

/// Parses one status output into the list of changed paths: the records'
/// paths, deduplicated and sorted lexicographically. The result is the
/// unique strictly increasing list holding exactly the paths of the
/// records, so it does not depend on the engine's enumeration order.
pub fn parse_status_output(out: &str) -> (r: Vec<String>)
    ensures
        strict_sorted(r.deep_view()),
        forall|p: Seq<char>|
            #![trigger r.deep_view().contains(p)]
            #![trigger status_paths(out@).contains(p)]
            r.deep_view().contains(p) <==> status_paths(out@).contains(p),
        r.deep_view() == canonical_paths(status_paths(out@)),
{
    let entries = split_nonempty(out, '\0');
    let files = extract_changed_paths(&entries);
    let r = sorted_dedup(&files);
    proof {
        let ps = status_paths(out@);
        let c = canonical_paths(ps);
        assert(strict_sorted(r.deep_view()) && (forall|p: Seq<char>|
            #![trigger r.deep_view().contains(p)]
            #![trigger ps.contains(p)]
            r.deep_view().contains(p) <==> ps.contains(p)));
        assert(strict_sorted(c) && (forall|p: Seq<char>|
            #![trigger c.contains(p)]
            #![trigger ps.contains(p)]
            c.contains(p) <==> ps.contains(p)));
        lemma_strict_sorted_unique(c, r.deep_view());
    }
    r
}

/// Whether the status output reports any change at all.
pub fn status_has_changes(out: &str) -> (r: bool)
    ensures
        r == (status_paths(out@).len() > 0),
{
    let files = parse_status_output(out);
    let ghost sp = status_paths(out@);
    proof {
        assert(files.deep_view().len() == files@.len());
        if sp.len() > 0 {
            assert(sp.contains(sp[0]));
            assert(files.deep_view().contains(sp[0]));
        }
        if files.deep_view().len() > 0 {
            assert(files.deep_view().contains(files.deep_view()[0]));
            assert(sp.contains(files.deep_view()[0]));
        }
    }
    files.len() > 0
}

/// Status parsing is order-independent and idempotent: two status outputs
/// whose records name the same set of paths — in whatever order the
/// engine enumerated them — parse to the same changed-path list, because
/// the list is the unique sorted, deduplicated form of that set.
pub proof fn lemma_paths_order_independent(
    out1: Seq<char>,
    out2: Seq<char>,
    r1: Seq<Seq<char>>,
    r2: Seq<Seq<char>>,
)
    requires
        strict_sorted(r1),
        strict_sorted(r2),
        forall|p: Seq<char>|
            #![trigger r1.contains(p)]
            #![trigger status_paths(out1).contains(p)]
            r1.contains(p) <==> status_paths(out1).contains(p),
        forall|p: Seq<char>|
            #![trigger r2.contains(p)]
            #![trigger status_paths(out2).contains(p)]
            r2.contains(p) <==> status_paths(out2).contains(p),
        forall|p: Seq<char>|
            #![trigger status_paths(out1).contains(p)]
            #![trigger status_paths(out2).contains(p)]
            status_paths(out1).contains(p) <==> status_paths(out2).contains(p),
    ensures
        r1 == r2,
{
    assert forall|p: Seq<char>| r1.contains(p) <==> r2.contains(p) by {
        assert(r1.contains(p) <==> status_paths(out1).contains(p));
        assert(r2.contains(p) <==> status_paths(out2).contains(p));
    }
    lemma_strict_sorted_unique(r1, r2);
}

} // verus!
