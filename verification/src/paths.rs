//! Virtual paths are absolute, normalized byte strings: a single leading
//! separator, no trailing separator. A path is identified by its ordered
//! list of components, obtained by splitting on the separator and dropping
//! empty components and single-dot components.

use vstd::prelude::*;

verus! {

/// The path separator byte, `b'/'`.
pub const SEP: u8 = 47;

/// The byte `b'.'`; a component consisting of this single byte is dropped
/// when a path is split into components.
pub const DOT: u8 = 46;

/// A split component is kept when it is non-empty and is not ".".
pub open spec fn keep_component(c: Seq<u8>) -> bool {
    c.len() > 0 && c != seq![DOT]
}

/// Components of `p` from position `i` on, with `cur` the partial component
/// read so far.
pub open spec fn split_from(p: Seq<u8>, i: int, cur: Seq<u8>) -> Seq<Seq<u8>>
    decreases p.len() - i,
{
    if i < 0 || i >= p.len() {
        if keep_component(cur) {
            seq![cur]
        } else {
            Seq::empty()
        }
    } else if p[i] == SEP {
        (if keep_component(cur) {
            seq![cur]
        } else {
            Seq::empty()
        }) + split_from(p, i + 1, Seq::empty())
    } else {
        split_from(p, i + 1, cur.push(p[i]))
    }
}

/// The ordered components of a path: split on the separator, with empty
/// components and "." components dropped. A leading separator is thereby
/// immaterial: relative and absolute spellings of a declared path give the
/// same components.
pub open spec fn components_of(p: Seq<u8>) -> Seq<Seq<u8>> {
    split_from(p, 0, Seq::empty())
}

/// The root path, "/".
pub open spec fn root_path() -> Seq<u8> {
    seq![SEP]
}

/// Joining a child name onto a directory path: the root path gets the name
/// appended directly, every other path gets a separator in between.
pub open spec fn join_path(p: Seq<u8>, name: Seq<u8>) -> Seq<u8> {
    if p == root_path() {
        p + name
    } else {
        p + seq![SEP] + name
    }
}

fn keep_component_exec(c: &Vec<u8>) -> (r: bool)
    ensures
        r == keep_component(c@),
{
    if c.len() == 0 {
        false
    } else if c.len() == 1 && c[0] == DOT {
        proof {
            assert(c@ =~= seq![DOT]);
        }
        false
    } else {
        proof {
            if c@ == seq![DOT] {
                assert(c@.len() == 1 && c@[0] == DOT);
            }
        }
        true
    }
}

/// Every component a split yields is non-empty.
pub proof fn lemma_split_from_nonempty(p: Seq<u8>, i: int, cur: Seq<u8>)
    ensures
        forall|k: int|
            0 <= k < split_from(p, i, cur).len() ==> #[trigger] split_from(p, i, cur)[k].len() > 0,
    decreases p.len() - i,
{
    if i < 0 || i >= p.len() {
    } else if p[i] == SEP {
        lemma_split_from_nonempty(p, i + 1, Seq::empty());
        let pre = if keep_component(cur) {
            seq![cur]
        } else {
            Seq::<Seq<u8>>::empty()
        };
        let rest = split_from(p, i + 1, Seq::empty());
        assert forall|k: int|
            0 <= k < split_from(p, i, cur).len() implies #[trigger] split_from(p, i, cur)[k].len()
            > 0 by {
            assert(split_from(p, i, cur) == pre + rest);
            if k < pre.len() {
                assert(split_from(p, i, cur)[k] == cur);
            } else {
                assert(split_from(p, i, cur)[k] == rest[k - pre.len()]);
            }
        }
    } else {
        lemma_split_from_nonempty(p, i + 1, cur.push(p[i]));
        let rest = split_from(p, i + 1, cur.push(p[i]));
        assert forall|k: int|
            0 <= k < split_from(p, i, cur).len() implies #[trigger] split_from(p, i, cur)[k].len()
            > 0 by {
            assert(split_from(p, i, cur) == rest);
            assert(rest[k].len() > 0);
        }
    }
}

/// Every component of a path is non-empty.
pub proof fn lemma_components_nonempty(p: Seq<u8>)
    ensures
        forall|k: int|
            0 <= k < components_of(p).len() ==> #[trigger] components_of(p)[k].len() > 0,
{
    lemma_split_from_nonempty(p, 0, Seq::empty());
}

/// Splits a path into its components.
pub fn split_components(p: &Vec<u8>) -> (r: Vec<Vec<u8>>)
    ensures
        r.deep_view() == components_of(p@),
{
    let mut acc: Vec<Vec<u8>> = Vec::new();
    let mut cur: Vec<u8> = Vec::new();
    let mut i: usize = 0;
    proof {
        assert(acc.deep_view() + split_from(p@, 0, Seq::empty()) =~~= components_of(p@));
    }
    while i < p.len()
        invariant
            i <= p.len(),
            components_of(p@) == acc.deep_view() + split_from(p@, i as int, cur@),
        decreases p.len() - i,
    {
        let b = p[i];
        if b == SEP {
            let finished = cur;
            cur = Vec::new();
            if keep_component_exec(&finished) {
                let ghost old_acc = acc.deep_view();
                let ghost fin = finished@;
                acc.push(finished);
                proof {
                    assert(acc.deep_view() =~~= old_acc + seq![fin]);
                    assert(acc.deep_view() + split_from(p@, i + 1, Seq::empty()) =~~= old_acc + (
                    seq![fin] + split_from(p@, i + 1, Seq::empty())));
                }
            } else {
                proof {
                    assert(acc.deep_view() + (Seq::<Seq<u8>>::empty() + split_from(
                        p@,
                        i + 1,
                        Seq::empty(),
                    )) =~~= acc.deep_view() + split_from(p@, i + 1, Seq::empty()));
                }
            }
        } else {
            cur.push(b);
        }
        i = i + 1;
    }
    if keep_component_exec(&cur) {
        let ghost old_acc = acc.deep_view();
        let ghost fin = cur@;
        acc.push(cur);
        proof {
            assert(acc.deep_view() =~~= old_acc + seq![fin]);
        }
    } else {
        proof {
            assert(acc.deep_view() =~~= acc.deep_view() + Seq::<Seq<u8>>::empty());
        }
    }
    acc
}

/// Copies a byte string.
pub fn copy_bytes(p: &Vec<u8>) -> (r: Vec<u8>)
    ensures
        r@ == p@,
{
    let mut r: Vec<u8> = Vec::new();
    let mut i: usize = 0;
    while i < p.len()
        invariant
            i <= p.len(),
            r@ == p@.take(i as int),
        decreases p.len() - i,
    {
        r.push(p[i]);
        proof {
            assert(r@ =~= p@.take(i + 1));
        }
        i = i + 1;
    }
    proof {
        assert(p@.take(p@.len() as int) =~= p@);
    }
    r
}

/// Whether `p` is exactly the root path.
pub fn is_root_path(p: &Vec<u8>) -> (r: bool)
    ensures
        r == (p@ == root_path()),
{
    if p.len() == 1 && p[0] == SEP {
        proof {
            assert(p@ =~= root_path());
        }
        true
    } else {
        proof {
            if p@ == root_path() {
                assert(p@.len() == 1 && p@[0] == SEP);
            }
        }
        false
    }
}

/// Joins a child name onto a directory path.
pub fn join_path_exec(p: &Vec<u8>, name: &Vec<u8>) -> (r: Vec<u8>)
    ensures
        r@ == join_path(p@, name@),
{
    let mut r = copy_bytes(p);
    if !is_root_path(p) {
        r.push(SEP);
    }
    let mut i: usize = 0;
    while i < name.len()
        invariant
            i <= name.len(),
            r@ == (if p@ == root_path() {
                p@
            } else {
                p@ + seq![SEP]
            }) + name@.take(i as int),
        decreases name.len() - i,
    {
        r.push(name[i]);
        proof {
            assert(r@ =~= (if p@ == root_path() {
                p@
            } else {
                p@ + seq![SEP]
            }) + name@.take(i + 1));
        }
        i = i + 1;
    }
    proof {
        assert(name@.take(name@.len() as int) =~= name@);
        if p@ == root_path() {
            assert(r@ =~= join_path(p@, name@));
        } else {
            assert(r@ =~= join_path(p@, name@));
        }
    }
    r
}

/// Whether two byte strings are equal.
pub fn bytes_eq(a: &Vec<u8>, b: &Vec<u8>) -> (r: bool)
    ensures
        r == (a@ == b@),
{
    if a.len() != b.len() {
        proof {
            if a@ == b@ {
                assert(a@.len() == b@.len());
            }
        }
        return false;
    }
    let mut i: usize = 0;
    while i < a.len()
        invariant
            i <= a.len(),
            a@.len() == b@.len(),
            forall|j: int| 0 <= j < i ==> a@[j] == b@[j],
        decreases a.len() - i,
    {
        if a[i] != b[i] {
            return false;
        }
        i = i + 1;
    }
    proof {
        assert(a@ =~= b@);
    }
    true
}

} // verus!
