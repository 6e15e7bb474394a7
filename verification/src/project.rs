//! The project file listing: which files are shown, and in what order.
//!
//! The caller walks the project directory and hands the entries it found
//! here; the extension allow-list and the ordering by path are decided in
//! this module.

use vstd::prelude::*;

use crate::sandbox::spec_extension_allowed;
use vstd::multiset::Multiset;
use vstd::utf8::encode_utf8;

verus! {

broadcast use vstd::std_specs::vec::group_vec_axioms, vstd::seq::group_seq_axioms;

/// One file of the project directory: its path relative to the project
/// root, its file name, and its size in bytes.
#[derive(Debug, Clone, PartialEq, Eq)]
pub struct ProjectEntry {
    pub path: String,
    pub name: String,
    pub size: u64,
}

impl ProjectEntry {
    /// A copy equal to the entry.
    pub fn duplicate(&self) -> (r: ProjectEntry)
        ensures
            r == *self,
    {
        ProjectEntry { path: self.path.clone(), name: self.name.clone(), size: self.size }
    }
}

/// Whether an entry's extension is on the allow-list.
pub open spec fn spec_entry_allowed(e: ProjectEntry, allow: Seq<Seq<u8>>) -> bool {
    spec_extension_allowed(encode_utf8(e.path@), allow)
}

/// The entries whose extension is on the allow-list, in their given order.
pub open spec fn spec_filter_entries(es: Seq<ProjectEntry>, allow: Seq<Seq<u8>>) -> Seq<
    ProjectEntry,
>
    decreases es.len(),
{
    if es.len() == 0 {
        Seq::empty()
    } else {
        (if spec_entry_allowed(es[0], allow) {
            seq![es[0]]
        } else {
            Seq::empty()
        }) + spec_filter_entries(es.drop_first(), allow)
    }
}

/// Keep the entries whose extension, compared without regard to ASCII
/// case, is on the allow-list.
#[verifier::loop_isolation(false)]
pub fn filter_project_entries(entries: &Vec<ProjectEntry>, allow: &Vec<Vec<u8>>) -> (r: Vec<
    ProjectEntry,
>)
    ensures
        r@ == spec_filter_entries(entries@, Seq::new(allow@.len(), |k: int| allow@[k]@)),
{
    let ghost av = Seq::new(allow@.len(), |k: int| allow@[k]@);
    let n = entries.len();
    let mut out: Vec<ProjectEntry> = Vec::new();
    let mut i: usize = 0;
    proof {
        assert(entries@.skip(0) =~= entries@);
        assert(Seq::<ProjectEntry>::empty() + spec_filter_entries(entries@, av)
            =~= spec_filter_entries(entries@, av));
    }
    while i < n
        invariant
            i <= n,
            spec_filter_entries(entries@, av) == out@ + spec_filter_entries(
                entries@.skip(i as int),
                av,
            ),
        decreases n - i,
    {
        proof {
            assert(entries@.skip(i as int)[0] == entries@[i as int]);
            assert(entries@.skip(i as int).drop_first() =~= entries@.skip(i as int + 1));
        }
        if crate::sandbox::extension_allowed(entries[i].path.as_str().as_bytes(), allow) {
            out.push(entries[i].duplicate());
        }
        i = i + 1;
    }
    proof {
        assert(entries@.skip(n as int) =~= Seq::<ProjectEntry>::empty());
        assert(out@ + Seq::<ProjectEntry>::empty() =~= out@);
    }
    out
}

/// Byte-wise lexicographic order: the empty string first, then by the
/// first differing byte.
pub open spec fn lex_le(a: Seq<u8>, b: Seq<u8>) -> bool
    decreases a.len(),
{
    if a.len() == 0 {
        true
    } else if b.len() == 0 {
        false
    } else if a[0] < b[0] {
        true
    } else if a[0] > b[0] {
        false
    } else {
        lex_le(a.drop_first(), b.drop_first())
    }
}

/// The order is total.
pub proof fn lemma_lex_le_total(a: Seq<u8>, b: Seq<u8>)
    ensures
        lex_le(a, b) || lex_le(b, a),
    decreases a.len(),
{
    if a.len() > 0 && b.len() > 0 && a[0] == b[0] {
        lemma_lex_le_total(a.drop_first(), b.drop_first());
    }
}

/// The order is transitive.
pub proof fn lemma_lex_le_trans(a: Seq<u8>, b: Seq<u8>, c: Seq<u8>)
    requires
        lex_le(a, b),
        lex_le(b, c),
    ensures
        lex_le(a, c),
    decreases a.len(),
{
    if a.len() > 0 {
        if b.len() > 0 && c.len() > 0 && a[0] == b[0] && b[0] == c[0] {
            lemma_lex_le_trans(a.drop_first(), b.drop_first(), c.drop_first());
        }
    }
}

/// Dropping an equal prefix does not change the order.
proof fn lemma_lex_le_skip(a: Seq<u8>, b: Seq<u8>, i: int)
    requires
        0 <= i <= a.len(),
        i <= b.len(),
        forall|j: int| 0 <= j < i ==> a[j] == b[j],
    ensures
        lex_le(a, b) == lex_le(a.skip(i), b.skip(i)),
    decreases i,
{
    if i > 0 {
        assert(a.len() > 0 && b.len() > 0 && a[0] == b[0]);
        lemma_lex_le_skip(a.drop_first(), b.drop_first(), i - 1);
        assert(a.drop_first().skip(i - 1) =~= a.skip(i));
        assert(b.drop_first().skip(i - 1) =~= b.skip(i));
    } else {
        assert(a.skip(0) =~= a);
        assert(b.skip(0) =~= b);
    }
}

/// Decide the byte-wise lexicographic order.
#[verifier::loop_isolation(false)]
pub fn bytes_le(a: &[u8], b: &[u8]) -> (r: bool)
    ensures
        r == lex_le(a@, b@),
{
    let na = a.len();
    let nb = b.len();
    let mut i: usize = 0;
    while i < na && i < nb && a[i] == b[i]
        invariant
            i <= na,
            i <= nb,
            forall|j: int| 0 <= j < i ==> a@[j] == b@[j],
        decreases na - i,
    {
        i = i + 1;
    }
    proof {
        lemma_lex_le_skip(a@, b@, if i <= nb {
            i as int
        } else {
            nb as int
        });
    }
    if i == na {
        proof {
            assert(a@.skip(i as int) =~= Seq::<u8>::empty());
        }
        return true;
    }
    if i == nb {
        proof {
            assert(b@.skip(i as int) =~= Seq::<u8>::empty());
            assert(a@.skip(i as int).len() > 0);
        }
        return false;
    }
    proof {
        assert(a@.skip(i as int)[0] == a@[i as int]);
        assert(b@.skip(i as int)[0] == b@[i as int]);
    }
    a[i] < b[i]
}

/// The bytes an entry is ordered by.
pub open spec fn entry_key(e: ProjectEntry) -> Seq<u8> {
    encode_utf8(e.path@)
}

/// Whether a listing is ordered by path.
pub open spec fn sorted_by_path(es: Seq<ProjectEntry>) -> bool {
    forall|i: int, j: int|
        0 <= i < j < es.len() ==> lex_le(entry_key(#[trigger] es[i]), entry_key(#[trigger] es[j]))
}

/// Order a listing by path, keeping exactly the given entries.
#[verifier::loop_isolation(false)]
pub fn sort_entries_by_path(entries: Vec<ProjectEntry>) -> (r: Vec<ProjectEntry>)
    ensures
        sorted_by_path(r@),
        r@.to_multiset() == entries@.to_multiset(),
{
    broadcast use vstd::seq_lib::group_to_multiset_ensures,
        vstd::multiset::group_multiset_axioms;

    let mut input = entries;
    let mut out: Vec<ProjectEntry> = Vec::new();
    proof {
        assert(entries@.to_multiset() =~= out@.to_multiset().add(input@.to_multiset()));
    }
    loop
        invariant
            sorted_by_path(out@),
            entries@.to_multiset() == out@.to_multiset().add(input@.to_multiset()),
        decreases input@.len(),
    {
        let ghost input0 = input@;
        let e = match input.pop() {
            Some(e) => e,
            None => {
                break ;
            },
        };
        proof {
            assert(input0.drop_last() == input@);
            assert(input0 =~= input@.push(e));
            assert(input0.to_multiset() =~= input@.to_multiset().insert(e));
        }
        let m = out.len();
        let mut j: usize = 0;
        while j < m && bytes_le(out[j].path.as_str().as_bytes(), e.path.as_str().as_bytes())
            invariant
                j <= m,
                forall|k: int| 0 <= k < j ==> lex_le(entry_key(#[trigger] out@[k]), entry_key(e)),
            decreases m - j,
        {
            j = j + 1;
        }
        proof {
            if j < m {
                lemma_lex_le_total(entry_key(out@[j as int]), entry_key(e));
            }
        }
        let ghost out0 = out@;
        out.insert(j, e);
        proof {
            // ordering
            assert forall|p: int, q: int| 0 <= p < q < out@.len() implies lex_le(
                entry_key(#[trigger] out@[p]),
                entry_key(#[trigger] out@[q]),
            ) by {
                let ji = j as int;
                if q < ji {
                    assert(out@[p] == out0[p] && out@[q] == out0[q]);
                } else if p > ji {
                    assert(out@[p] == out0[p - 1] && out@[q] == out0[q - 1]);
                } else if p < ji && q == ji {
                    assert(out@[p] == out0[p]);
                } else if p == ji && q > ji {
                    assert(out@[q] == out0[q - 1]);
                    assert(lex_le(entry_key(e), entry_key(out0[ji])));
                    if q - 1 > ji {
                        lemma_lex_le_trans(
                            entry_key(e),
                            entry_key(out0[ji]),
                            entry_key(out0[q - 1]),
                        );
                    }
                } else if p < ji && q > ji {
                    assert(out@[p] == out0[p] && out@[q] == out0[q - 1]);
                }
            }
            // contents
            assert(out@.remove(j as int) =~= out0);
            assert(out@.remove(j as int).to_multiset() =~= out@.to_multiset().remove(
                out@[j as int],
            ));
            assert(out@.to_multiset().contains(e)) by {
                assert(out@[j as int] == e);
            }
            assert(out@.to_multiset() =~= out0.to_multiset().insert(e));
            assert(out@.to_multiset().add(input@.to_multiset()) =~= out0.to_multiset().add(
                input0.to_multiset(),
            ));
        }
    }
    proof {
        assert(input@.to_multiset() =~= Multiset::<ProjectEntry>::empty());
        assert(out@.to_multiset().add(Multiset::<ProjectEntry>::empty()) =~= out@.to_multiset());
    }
    out
}

} // verus!
