//! The order on link keys and a sorted, duplicate-free set of keys.
use vstd::prelude::*;
use crate::target::{Key, KeyView};

verus! {

/// Lexicographic order on character sequences (code point by code point,
/// which is also the byte order of their UTF-8 encodings).
pub open spec fn seq_lt(a: Seq<char>, b: Seq<char>) -> bool
    decreases a.len(),
{
    if b.len() == 0 {
        false
    } else if a.len() == 0 {
        true
    } else if a[0] != b[0] {
        a[0] < b[0]
    } else {
        seq_lt(a.drop_first(), b.drop_first())
    }
}

/// `Option` order: `None` first.
pub open spec fn opt_lt(a: Option<Seq<char>>, b: Option<Seq<char>>) -> bool {
    match (a, b) {
        (None, Some(_)) => true,
        (Some(x), Some(y)) => seq_lt(x, y),
        _ => false,
    }
}

/// The order on keys: by workspace, then project, then path.
pub open spec fn key_lt(a: KeyView, b: KeyView) -> bool {
    ||| opt_lt(a.workspace, b.workspace)
    ||| (a.workspace == b.workspace && opt_lt(a.project, b.project))
    ||| (a.workspace == b.workspace && a.project == b.project && seq_lt(a.path, b.path))
}

pub proof fn lemma_seq_lt_irrefl(a: Seq<char>)
    ensures
        !seq_lt(a, a),
    decreases a.len(),
{
    if a.len() > 0 {
        lemma_seq_lt_irrefl(a.drop_first());
    }
}

pub proof fn lemma_seq_lt_trans(a: Seq<char>, b: Seq<char>, c: Seq<char>)
    requires
        seq_lt(a, b),
        seq_lt(b, c),
    ensures
        seq_lt(a, c),
    decreases a.len(),
{
    if a.len() > 0 && b.len() > 0 && c.len() > 0 && a[0] == b[0] && b[0] == c[0] {
        lemma_seq_lt_trans(a.drop_first(), b.drop_first(), c.drop_first());
    }
}

pub proof fn lemma_seq_lt_total(a: Seq<char>, b: Seq<char>)
    ensures
        seq_lt(a, b) || seq_lt(b, a) || a == b,
        !(seq_lt(a, b) && seq_lt(b, a)),
    decreases a.len(),
{
    if a.len() > 0 && b.len() > 0 && a[0] == b[0] {
        lemma_seq_lt_total(a.drop_first(), b.drop_first());
        if a.drop_first() == b.drop_first() {
            assert(a =~= seq![a[0]] + a.drop_first());
            assert(b =~= seq![b[0]] + b.drop_first());
        }
    } else if a.len() == 0 && b.len() == 0 {
        assert(a =~= b);
    }
}

pub proof fn lemma_opt_lt_total(a: Option<Seq<char>>, b: Option<Seq<char>>)
    ensures
        opt_lt(a, b) || opt_lt(b, a) || a == b,
        !(opt_lt(a, b) && opt_lt(b, a)),
{
    if let (Some(x), Some(y)) = (a, b) {
        lemma_seq_lt_total(x, y);
    }
}

pub proof fn lemma_opt_lt_trans(a: Option<Seq<char>>, b: Option<Seq<char>>, c: Option<Seq<char>>)
    requires
        opt_lt(a, b),
        opt_lt(b, c),
    ensures
        opt_lt(a, c),
{
    if let (Some(x), Some(y), Some(z)) = (a, b, c) {
        lemma_seq_lt_trans(x, y, z);
    }
}

pub proof fn lemma_key_lt_total(a: KeyView, b: KeyView)
    ensures
        key_lt(a, b) || key_lt(b, a) || a == b,
        !(key_lt(a, b) && key_lt(b, a)),
{
    lemma_opt_lt_total(a.workspace, b.workspace);
    lemma_opt_lt_total(a.project, b.project);
    lemma_seq_lt_total(a.path, b.path);
    if let Some(w) = a.workspace {
        lemma_seq_lt_irrefl(w);
    }
    if let Some(p) = a.project {
        lemma_seq_lt_irrefl(p);
    }
}

pub proof fn lemma_key_lt_trans(a: KeyView, b: KeyView, c: KeyView)
    requires
        key_lt(a, b),
        key_lt(b, c),
    ensures
        key_lt(a, c),
{
    if opt_lt(a.workspace, b.workspace) && opt_lt(b.workspace, c.workspace) {
        lemma_opt_lt_trans(a.workspace, b.workspace, c.workspace);
    }
    if a.workspace == b.workspace && b.workspace == c.workspace {
        if opt_lt(a.project, b.project) && opt_lt(b.project, c.project) {
            lemma_opt_lt_trans(a.project, b.project, c.project);
        }
        if a.project == b.project && b.project == c.project && seq_lt(a.path, b.path) && seq_lt(
            b.path,
            c.path,
        ) {
            lemma_seq_lt_trans(a.path, b.path, c.path);
        }
    }
}

/// The outcome of comparing two keys.
#[derive(Clone, Copy, PartialEq, Eq, Structural, Debug)]
pub enum Order {
    Less,
    Same,
    Greater,
}

pub fn compare_chars(a: &Vec<char>, b: &Vec<char>) -> (r: Order)
    ensures
        r == Order::Less <==> seq_lt(a@, b@),
        r == Order::Same <==> a@ == b@,
        r == Order::Greater <==> seq_lt(b@, a@),
{
    proof {
        lemma_seq_lt_total(a@, b@);
    }
    let mut i: usize = 0;
    assert(a@.skip(0) =~= a@);
    assert(b@.skip(0) =~= b@);
    while i < a.len() && i < b.len() && a[i] == b[i]
        invariant
            i <= a.len(),
            i <= b.len(),
            a@.take(i as int) == b@.take(i as int),
            seq_lt(a@, b@) == seq_lt(a@.skip(i as int), b@.skip(i as int)),
            seq_lt(b@, a@) == seq_lt(b@.skip(i as int), a@.skip(i as int)),
        decreases a.len() - i,
    {
        assert(a@.skip(i as int).drop_first() =~= a@.skip(i + 1));
        assert(b@.skip(i as int).drop_first() =~= b@.skip(i + 1));
        assert(a@.take(i + 1) =~= a@.take(i as int).push(a@[i as int]));
        assert(b@.take(i + 1) =~= b@.take(i as int).push(b@[i as int]));
        i += 1;
    }
    if i == a.len() && i == b.len() {
        assert(a@ =~= a@.take(i as int));
        assert(b@ =~= b@.take(i as int));
        Order::Same
    } else if i == a.len() {
        assert(a@.skip(i as int).len() == 0);
        Order::Less
    } else if i == b.len() {
        assert(b@.skip(i as int).len() == 0);
        Order::Greater
    } else if a[i] < b[i] {
        Order::Less
    } else {
        Order::Greater
    }
}

pub fn compare_opt(a: &Option<Vec<char>>, b: &Option<Vec<char>>) -> (r: Order)
    ensures
        r == Order::Less <==> opt_lt(crate::target::opt_view(*a), crate::target::opt_view(*b)),
        r == Order::Same <==> crate::target::opt_view(*a) == crate::target::opt_view(*b),
        r == Order::Greater <==> opt_lt(crate::target::opt_view(*b), crate::target::opt_view(*a)),
{
    proof {
        lemma_opt_lt_total(crate::target::opt_view(*a), crate::target::opt_view(*b));
    }
    match (a, b) {
        (None, None) => Order::Same,
        (None, Some(_)) => Order::Less,
        (Some(_), None) => Order::Greater,
        (Some(x), Some(y)) => compare_chars(x, y),
    }
}

pub fn compare_keys(a: &Key, b: &Key) -> (r: Order)
    ensures
        r == Order::Less <==> key_lt(a@, b@),
        r == Order::Same <==> a@ == b@,
        r == Order::Greater <==> key_lt(b@, a@),
{
    proof {
        lemma_key_lt_total(a@, b@);
    }
    let w = compare_opt(&a.workspace, &b.workspace);
    if w != Order::Same {
        return w;
    }
    let p = compare_opt(&a.project, &b.project);
    if p != Order::Same {
        return p;
    }
    compare_chars(&a.path, &b.path)
}

// ---------------------------------------------------------------------------
// A sorted set of keys
// ---------------------------------------------------------------------------

pub open spec fn key_views(v: Seq<Key>) -> Seq<KeyView> {
    v.map_values(|k: Key| k@)
}

/// Strictly increasing in key order (so also free of duplicates).
pub open spec fn strictly_sorted(s: Seq<KeyView>) -> bool {
    forall|i: int, j: int| 0 <= i < j < s.len() ==> key_lt(#[trigger] s[i], #[trigger] s[j])
}

/// The set of keys in `s`.
pub open spec fn key_set(s: Seq<KeyView>) -> Set<KeyView> {
    Set::new(|k: KeyView| exists|i: int| 0 <= i < s.len() && s[i] == k)
}

/// A set of link keys kept in increasing order.
pub struct KeySet {
    pub keys: Vec<Key>,
}

impl KeySet {
    pub open spec fn wf(&self) -> bool {
        strictly_sorted(key_views(self.keys@))
    }

    pub open spec fn view_set(&self) -> Set<KeyView> {
        key_set(key_views(self.keys@))
    }

    pub fn new() -> (r: KeySet)
        ensures
            r.wf(),
            r.view_set() == Set::<KeyView>::empty(),
    {
        let r = KeySet { keys: Vec::new() };
        assert(r.view_set() =~= Set::<KeyView>::empty());
        r
    }

    pub fn insert(&mut self, k: Key)
        requires
            old(self).wf(),
        ensures
            final(self).wf(),
            final(self).view_set() == old(self).view_set().insert(k@),
    {
        let ghost old_v = key_views(self.keys@);
        let n = self.keys.len();
        let mut i: usize = 0;
        while i < n && compare_keys(&self.keys[i], &k) == Order::Less
            invariant
                i <= n == self.keys.len(),
                key_views(self.keys@) == old_v,
                forall|j: int| 0 <= j < i ==> key_lt(#[trigger] old_v[j], k@),
            decreases n - i,
        {
            i += 1;
        }
        if i < n && compare_keys(&self.keys[i], &k) == Order::Same {
            assert(old_v[i as int] == k@);
            assert(self.view_set() =~= key_set(old_v).insert(k@));
            return;
        }
        proof {
            if i < n {
                lemma_key_lt_total(old_v[i as int], k@);
                assert(key_lt(k@, old_v[i as int]));
                assert forall|j: int| i <= j < n implies key_lt(k@, #[trigger] old_v[j]) by {
                    if j > i {
                        lemma_key_lt_trans(k@, old_v[i as int], old_v[j]);
                    }
                }
            }
        }
        let ghost kv = k@;
        self.keys.insert(i, k);
        let ghost new_v = key_views(self.keys@);
        assert(new_v =~= old_v.insert(i as int, kv));
        assert forall|a: int, b: int| 0 <= a < b < new_v.len() implies key_lt(
            #[trigger] new_v[a],
            #[trigger] new_v[b],
        ) by {
            if b < i {
            } else if b == i {
            } else if a < i {
                assert(key_lt(old_v[a], kv));
                assert(key_lt(kv, old_v[b - 1]));
                lemma_key_lt_trans(old_v[a], kv, old_v[b - 1]);
            } else if a == i {
            } else {
                assert(new_v[a] == old_v[a - 1]);
                assert(new_v[b] == old_v[b - 1]);
            }
        }
        assert forall|x: KeyView| key_set(new_v).contains(x) <==> key_set(old_v).insert(
            kv,
        ).contains(x) by {
            if key_set(old_v).contains(x) && x != kv {
                let j = choose|j: int| 0 <= j < old_v.len() && old_v[j] == x;
                if j < i {
                    assert(new_v[j] == x);
                } else {
                    assert(new_v[j + 1] == x);
                }
            }
            if x == kv {
                assert(new_v[i as int] == kv);
            }
            if key_set(new_v).contains(x) {
                let j = choose|j: int| 0 <= j < new_v.len() && new_v[j] == x;
                if j < i {
                    assert(old_v[j] == x);
                } else if j > i {
                    assert(old_v[j - 1] == x);
                }
            }
        }
        assert(self.view_set() =~= key_set(old_v).insert(kv));
    }
}

} // verus!
