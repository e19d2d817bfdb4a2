//! The order of paths: component by component, each compared byte by byte,
//! a prefix first. On UTF-8 names this is the order of their characters.
use vstd::prelude::*;
use vstd::multiset::Multiset;
use crate::files::FoundFile;

verus! {

/// `a` comes before `b`, or equals it: bytes compared by value, a prefix
/// first.
pub open spec fn bytes_le(a: Seq<u8>, b: Seq<u8>) -> bool
    decreases a.len(),
{
    if a.len() == 0 {
        true
    } else if b.len() == 0 {
        false
    } else if a[0] != b[0] {
        a[0] < b[0]
    } else {
        bytes_le(a.drop_first(), b.drop_first())
    }
}

/// `a` comes before `b`, or equals it: components compared by `bytes_le`, a
/// prefix first.
pub open spec fn key_le(a: Seq<Seq<u8>>, b: Seq<Seq<u8>>) -> bool
    decreases a.len(),
{
    if a.len() == 0 {
        true
    } else if b.len() == 0 {
        false
    } else if a[0] != b[0] {
        bytes_le(a[0], b[0])
    } else {
        key_le(a.drop_first(), b.drop_first())
    }
}

/// Any two byte strings are ordered one way or the other.
pub proof fn lemma_bytes_le_total(a: Seq<u8>, b: Seq<u8>)
    ensures
        bytes_le(a, b) || bytes_le(b, a),
    decreases a.len(),
{
    if a.len() > 0 && b.len() > 0 && a[0] == b[0] {
        lemma_bytes_le_total(a.drop_first(), b.drop_first());
    }
}

/// Two byte strings that are each before the other are equal.
pub proof fn lemma_bytes_le_antisymmetric(a: Seq<u8>, b: Seq<u8>)
    requires
        bytes_le(a, b),
        bytes_le(b, a),
    ensures
        a == b,
    decreases a.len(),
{
    if a.len() == 0 {
        assert(b.len() == 0);
        assert(a =~= b);
    } else {
        lemma_bytes_le_antisymmetric(a.drop_first(), b.drop_first());
        assert(a =~= seq![a[0]] + a.drop_first());
        assert(b =~= seq![b[0]] + b.drop_first());
    }
}

/// The order of byte strings is transitive.
pub proof fn lemma_bytes_le_transitive(a: Seq<u8>, b: Seq<u8>, c: Seq<u8>)
    requires
        bytes_le(a, b),
        bytes_le(b, c),
    ensures
        bytes_le(a, c),
    decreases a.len(),
{
    if a.len() > 0 && b.len() > 0 && c.len() > 0 {
        if a[0] == b[0] && b[0] == c[0] {
            lemma_bytes_le_transitive(a.drop_first(), b.drop_first(), c.drop_first());
        }
    }
}

/// Any two component lists are ordered one way or the other.
pub proof fn lemma_key_le_total(a: Seq<Seq<u8>>, b: Seq<Seq<u8>>)
    ensures
        key_le(a, b) || key_le(b, a),
    decreases a.len(),
{
    if a.len() > 0 && b.len() > 0 {
        if a[0] == b[0] {
            lemma_key_le_total(a.drop_first(), b.drop_first());
        } else {
            lemma_bytes_le_total(a[0], b[0]);
        }
    }
}

/// The order of component lists is transitive.
pub proof fn lemma_key_le_transitive(a: Seq<Seq<u8>>, b: Seq<Seq<u8>>, c: Seq<Seq<u8>>)
    requires
        key_le(a, b),
        key_le(b, c),
    ensures
        key_le(a, c),
    decreases a.len(),
{
    if a.len() > 0 && b.len() > 0 && c.len() > 0 {
        if a[0] == b[0] && b[0] == c[0] {
            lemma_key_le_transitive(a.drop_first(), b.drop_first(), c.drop_first());
        } else if a[0] == b[0] {
            // b[0] != c[0]: bytes_le(b[0], c[0]) strictly
        } else if b[0] == c[0] {
        } else {
            lemma_bytes_le_transitive(a[0], b[0], c[0]);
            if a[0] == c[0] {
                lemma_bytes_le_antisymmetric(a[0], b[0]);
            }
        }
    }
}

/// Whether `a` comes before `b`, or equals it (see `bytes_le`).
pub fn bytes_le_exec(a: &Vec<u8>, b: &Vec<u8>) -> (r: bool)
    ensures
        r == bytes_le(a@, b@),
{
    let mut i: usize = 0;
    assert(a@.skip(0) =~= a@);
    assert(b@.skip(0) =~= b@);
    while i < a.len() && i < b.len()
        invariant
            i <= a.len(),
            i <= b.len(),
            bytes_le(a@, b@) == bytes_le(a@.skip(i as int), b@.skip(i as int)),
        decreases a.len() - i,
    {
        if a[i] != b[i] {
            assert(a@.skip(i as int)[0] == a@[i as int]);
            assert(b@.skip(i as int)[0] == b@[i as int]);
            return a[i] < b[i];
        }
        assert(a@.skip(i as int).drop_first() =~= a@.skip(i + 1));
        assert(b@.skip(i as int).drop_first() =~= b@.skip(i + 1));
        i += 1;
    }
    i == a.len()
}

/// The bytes of each component.
pub open spec fn key_of(components: Seq<Vec<u8>>) -> Seq<Seq<u8>> {
    components.map_values(|c: Vec<u8>| c@)
}

/// Whether `a` comes before `b`, or equals it (see `key_le`).
pub fn key_le_exec(a: &Vec<Vec<u8>>, b: &Vec<Vec<u8>>) -> (r: bool)
    ensures
        r == key_le(key_of(a@), key_of(b@)),
{
    let ghost ka = key_of(a@);
    let ghost kb = key_of(b@);
    let mut i: usize = 0;
    assert(ka.skip(0) =~= ka);
    assert(kb.skip(0) =~= kb);
    while i < a.len() && i < b.len()
        invariant
            ka == key_of(a@),
            kb == key_of(b@),
            i <= a.len(),
            i <= b.len(),
            key_le(ka, kb) == key_le(ka.skip(i as int), kb.skip(i as int)),
        decreases a.len() - i,
    {
        let le = bytes_le_exec(&a[i], &b[i]);
        let ge = bytes_le_exec(&b[i], &a[i]);
        assert(ka.skip(i as int)[0] == a@[i as int]@);
        assert(kb.skip(i as int)[0] == b@[i as int]@);
        if !(le && ge) {
            proof {
                if a@[i as int]@ == b@[i as int]@ {
                    lemma_bytes_le_total(a@[i as int]@, b@[i as int]@);
                }
            }
            return le;
        }
        proof {
            lemma_bytes_le_antisymmetric(a@[i as int]@, b@[i as int]@);
        }
        assert(ka.skip(i as int).drop_first() =~= ka.skip(i + 1));
        assert(kb.skip(i as int).drop_first() =~= kb.skip(i + 1));
        i += 1;
    }
    assert(ka.skip(i as int).len() == a.len() - i);
    i == a.len()
}


/// `a`'s path comes before `b`'s, or equals it.
pub open spec fn file_le(a: FoundFile, b: FoundFile) -> bool {
    key_le(key_of(a.components@), key_of(b.components@))
}

/// The files are in path order.
pub open spec fn sorted_files(s: Seq<FoundFile>) -> bool {
    forall|i: int, j: int| 0 <= i < j < s.len() ==> file_le(#[trigger] s[i], #[trigger] s[j])
}

/// The files are in reverse path order.
pub open spec fn reverse_sorted_files(s: Seq<FoundFile>) -> bool {
    forall|i: int, j: int| 0 <= i < j < s.len() ==> file_le(#[trigger] s[j], #[trigger] s[i])
}

/// Every file of `a` comes before, or equals, every file of `b`.
pub open spec fn all_before(a: Seq<FoundFile>, b: Seq<FoundFile>) -> bool {
    forall|i: int, j: int|
        0 <= i < a.len() && 0 <= j < b.len() ==> file_le(#[trigger] a[i], #[trigger] b[j])
}

proof fn lemma_file_le_transitive(a: FoundFile, b: FoundFile, c: FoundFile)
    requires
        file_le(a, b),
        file_le(b, c),
    ensures
        file_le(a, c),
{
    lemma_key_le_transitive(key_of(a.components@), key_of(b.components@), key_of(c.components@));
}

proof fn lemma_file_le_total(a: FoundFile, b: FoundFile)
    ensures
        file_le(a, b) || file_le(b, a),
{
    lemma_key_le_total(key_of(a.components@), key_of(b.components@));
}

/// Whether `a`'s path comes before `b`'s, or equals it.
fn file_le_exec(a: &FoundFile, b: &FoundFile) -> (r: bool)
    ensures
        r == file_le(*a, *b),
{
    key_le_exec(&a.components, &b.components)
}

proof fn lemma_push_multiset(s: Seq<FoundFile>, x: FoundFile)
    ensures
        s.push(x).to_multiset() == s.to_multiset().insert(x),
{
    s.to_multiset_ensures();
}

/// Merges two files lists in path order into one.
fn merge_files(a: Vec<FoundFile>, b: Vec<FoundFile>) -> (r: Vec<FoundFile>)
    requires
        sorted_files(a@),
        sorted_files(b@),
    ensures
        sorted_files(r@),
        r@.to_multiset() == a@.to_multiset().add(b@.to_multiset()),
{
    broadcast use vstd::seq_lib::group_to_multiset_ensures;

    let ghost total = a@.to_multiset().add(b@.to_multiset());
    let mut a = a;
    let mut b = b;
    let mut desc: Vec<FoundFile> = Vec::new();
    while a.len() > 0 || b.len() > 0
        invariant
            sorted_files(a@),
            sorted_files(b@),
            reverse_sorted_files(desc@),
            all_before(a@, desc@),
            all_before(b@, desc@),
            desc@.to_multiset().add(a@.to_multiset()).add(b@.to_multiset()) == total,
        decreases a.len() + b.len(),
    {
        let take_a = if a.len() == 0 {
            false
        } else if b.len() == 0 {
            true
        } else {
            file_le_exec(&b[b.len() - 1], &a[a.len() - 1])
        };
        let ghost a0 = a@;
        let ghost b0 = b@;
        let ghost d0 = desc@;
        if take_a {
            let x = a.pop().unwrap();
            proof {
                assert(a0 =~= a@.push(x));
                if b.len() == 0 {
                } else {
                    lemma_file_le_total(b0.last(), x);
                }
            }
            desc.push(x);
            proof {
                assert(desc@ =~= d0.push(x));
                assert forall|i: int, j: int| 0 <= i < j < desc@.len() implies file_le(
                    #[trigger] desc@[j],
                    #[trigger] desc@[i],
                ) by {
                    if j == desc@.len() - 1 {
                        assert(a0[a0.len() - 1] == x);
                        assert(file_le(a0[a0.len() - 1], d0[i]));
                    }
                }
                assert forall|i: int, j: int|
                    0 <= i < a@.len() && 0 <= j < desc@.len() implies file_le(
                    #[trigger] a@[i],
                    #[trigger] desc@[j],
                ) by {
                    assert(a@[i] == a0[i]);
                    if j == desc@.len() - 1 {
                        assert(file_le(a0[i], a0[a0.len() - 1]));
                    }
                }
                assert forall|i: int, j: int|
                    0 <= i < b@.len() && 0 <= j < desc@.len() implies file_le(
                    #[trigger] b@[i],
                    #[trigger] desc@[j],
                ) by {
                    if j == desc@.len() - 1 {
                        if i < b@.len() - 1 {
                            assert(file_le(b@[i], b@[b@.len() - 1]));
                            lemma_file_le_transitive(b@[i], b@[b@.len() - 1], x);
                        }
                    }
                }
                lemma_push_multiset(d0, x);
                lemma_push_multiset(a@, x);
                assert(desc@.to_multiset().add(a@.to_multiset()) =~= d0.to_multiset().add(
                    a0.to_multiset(),
                ));
            }
        } else {
            let x = b.pop().unwrap();
            proof {
                assert(b0 =~= b@.push(x));
                if a.len() > 0 {
                    lemma_file_le_total(a@.last(), x);
                }
            }
            desc.push(x);
            proof {
                assert(desc@ =~= d0.push(x));
                assert forall|i: int, j: int| 0 <= i < j < desc@.len() implies file_le(
                    #[trigger] desc@[j],
                    #[trigger] desc@[i],
                ) by {
                    if j == desc@.len() - 1 {
                        assert(b0[b0.len() - 1] == x);
                        assert(file_le(b0[b0.len() - 1], d0[i]));
                    }
                }
                assert forall|i: int, j: int|
                    0 <= i < b@.len() && 0 <= j < desc@.len() implies file_le(
                    #[trigger] b@[i],
                    #[trigger] desc@[j],
                ) by {
                    assert(b@[i] == b0[i]);
                    if j == desc@.len() - 1 {
                        assert(file_le(b0[i], b0[b0.len() - 1]));
                    }
                }
                assert forall|i: int, j: int|
                    0 <= i < a@.len() && 0 <= j < desc@.len() implies file_le(
                    #[trigger] a@[i],
                    #[trigger] desc@[j],
                ) by {
                    if j == desc@.len() - 1 {
                        if i < a@.len() - 1 {
                            assert(file_le(a@[i], a@[a@.len() - 1]));
                            lemma_file_le_transitive(a@[i], a@[a@.len() - 1], x);
                        }
                    }
                }
                lemma_push_multiset(d0, x);
                lemma_push_multiset(b@, x);
                assert(desc@.to_multiset().add(a@.to_multiset()).add(b@.to_multiset())
                    =~= d0.to_multiset().add(a0.to_multiset()).add(b0.to_multiset()));
            }
        }
    }
    proof {
        assert(a@.to_multiset() =~= Multiset::empty());
        assert(b@.to_multiset() =~= Multiset::empty());
        assert(desc@.to_multiset() =~= total);
    }
    let ghost full = desc@;
    let mut asc: Vec<FoundFile> = Vec::new();
    while desc.len() > 0
        invariant
            sorted_files(asc@),
            reverse_sorted_files(desc@),
            all_before(asc@, desc@),
            asc@.to_multiset().add(desc@.to_multiset()) == total,
        decreases desc.len(),
    {
        let ghost d0 = desc@;
        let ghost s0 = asc@;
        let x = desc.pop().unwrap();
        proof {
            assert(d0 =~= desc@.push(x));
        }
        asc.push(x);
        proof {
            assert(asc@ =~= s0.push(x));
            assert forall|i: int, j: int| 0 <= i < j < asc@.len() implies file_le(
                #[trigger] asc@[i],
                #[trigger] asc@[j],
            ) by {
                if j == asc@.len() - 1 {
                    assert(file_le(s0[i], d0[d0.len() - 1]));
                }
            }
            assert forall|i: int, j: int|
                0 <= i < asc@.len() && 0 <= j < desc@.len() implies file_le(
                #[trigger] asc@[i],
                #[trigger] desc@[j],
            ) by {
                assert(desc@[j] == d0[j]);
                if i == asc@.len() - 1 {
                    assert(file_le(d0[d0.len() - 1], d0[j]));
                } else {
                    assert(file_le(s0[i], d0[j]));
                }
            }
            lemma_push_multiset(s0, x);
            lemma_push_multiset(desc@, x);
            assert(asc@.to_multiset().add(desc@.to_multiset()) =~= s0.to_multiset().add(
                d0.to_multiset(),
            ));
        }
    }
    proof {
        assert(desc@.to_multiset() =~= Multiset::empty());
        assert(asc@.to_multiset() =~= total);
    }
    asc
}

/// Puts files in path order (a merge sort).
pub fn sort_files(v: Vec<FoundFile>) -> (r: Vec<FoundFile>)
    ensures
        sorted_files(r@),
        r@.to_multiset() == v@.to_multiset(),
    decreases v.len(),
{
    if v.len() <= 1 {
        return v;
    }
    let ghost v0 = v@;
    let mut left = v;
    let mid = left.len() / 2;
    let right = left.split_off(mid);
    proof {
        assert(v0 =~= left@ + right@);
        vstd::seq_lib::lemma_multiset_commutative(left@, right@);
    }
    let left = sort_files(left);
    let right = sort_files(right);
    merge_files(left, right)
}

} // verus!
