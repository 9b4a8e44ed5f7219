//! The sorted list of server names.
use crate::keyed::views;
use crate::mcp::SERVER_NAME;
use vstd::prelude::*;

verus! {

/// The order of texts by their code points, a prefix first.
pub open spec fn precedes(a: Seq<char>, b: Seq<char>) -> bool
    decreases a.len(),
{
    if b.len() == 0 {
        false
    } else if a.len() == 0 {
        true
    } else {
        a[0] < b[0] || (a[0] == b[0] && precedes(a.drop_first(), b.drop_first()))
    }
}

/// Two texts are equal or one precedes the other.
pub proof fn lemma_precedes_total(a: Seq<char>, b: Seq<char>)
    ensures
        a == b || precedes(a, b) || precedes(b, a),
    decreases a.len(),
{
    if a.len() == 0 || b.len() == 0 {
        if a.len() == 0 && b.len() == 0 {
            assert(a =~= b);
        }
    } else {
        lemma_precedes_total(a.drop_first(), b.drop_first());
        if a[0] == b[0] && a.drop_first() == b.drop_first() {
            assert(a.drop_first().len() == b.drop_first().len());
            assert forall|i: int| 0 <= i < a.len() implies a[i] == b[i] by {
                if i > 0 {
                    assert(a[i] == a.drop_first()[i - 1]);
                    assert(b[i] == b.drop_first()[i - 1]);
                }
            }
            assert(a =~= b);
        }
    }
}

pub proof fn lemma_precedes_transitive(a: Seq<char>, b: Seq<char>, c: Seq<char>)
    requires
        precedes(a, b),
        precedes(b, c),
    ensures
        precedes(a, c),
    decreases a.len(),
{
    if a.len() > 0 {
        if a[0] == b[0] && b[0] == c[0] {
            lemma_precedes_transitive(a.drop_first(), b.drop_first(), c.drop_first());
        }
    }
}

pub proof fn lemma_precedes_irreflexive(a: Seq<char>)
    ensures
        !precedes(a, a),
    decreases a.len(),
{
    if a.len() > 0 {
        lemma_precedes_irreflexive(a.drop_first());
    }
}

/// Whether texts stand in strictly ascending order.
pub open spec fn ascending(names: Seq<Seq<char>>) -> bool {
    forall|i: int, j: int|
        0 <= i < j < names.len() ==> precedes(#[trigger] names[i], #[trigger] names[j])
}

/// An ascending list is determined by its members.
pub proof fn lemma_ascending_unique(a: Seq<Seq<char>>, b: Seq<Seq<char>>)
    requires
        ascending(a),
        ascending(b),
        a.to_set() == b.to_set(),
    ensures
        a == b,
    decreases a.len(),
{
    if a.len() == 0 {
        if b.len() > 0 {
            assert(b.to_set().contains(b[0]));
            assert(a.contains(b[0]));
        }
        assert(a =~= b);
    } else {
        assert(a.to_set().contains(a.last()));
        assert(b.contains(a.last()));
        assert(b.to_set().contains(b.last()));
        assert(a.contains(b.last()));
        let i = choose|i: int| 0 <= i < b.len() && b[i] == a.last();
        let j = choose|j: int| 0 <= j < a.len() && a[j] == b.last();
        if a.last() != b.last() {
            assert(precedes(a.last(), b.last()));
            assert(precedes(b.last(), a.last()));
            lemma_precedes_transitive(a.last(), b.last(), a.last());
            lemma_precedes_irreflexive(a.last());
        }
        let a1 = a.drop_last();
        let b1 = b.drop_last();
        assert forall|x: Seq<char>| a1.contains(x) == b1.contains(x) by {
            lemma_precedes_irreflexive(a.last());
            if a1.contains(x) {
                let k = choose|k: int| 0 <= k < a1.len() && a1[k] == x;
                assert(a[k] == x);
                assert(precedes(a[k], a[a.len() - 1]));
                assert(a.to_set().contains(x));
                assert(b.contains(x));
                let l = choose|l: int| 0 <= l < b.len() && b[l] == x;
                assert(b1[l] == x);
            }
            if b1.contains(x) {
                let k = choose|k: int| 0 <= k < b1.len() && b1[k] == x;
                assert(b[k] == x);
                assert(precedes(b[k], b[b.len() - 1]));
                assert(b.to_set().contains(x));
                assert(a.contains(x));
                let l = choose|l: int| 0 <= l < a.len() && a[l] == x;
                assert(a1[l] == x);
            }
        }
        assert(a1.to_set() =~= b1.to_set());
        lemma_ascending_unique(a1, b1);
        assert(a =~= a1.push(a.last()));
        assert(b =~= b1.push(b.last()));
    }
}

fn is_before(a: &str, b: &str) -> (r: bool)
    ensures
        r == precedes(a@, b@),
{
    let n = a.unicode_len();
    let m = b.unicode_len();
    let mut i: usize = 0;
    proof {
        assert(a@.skip(0) =~= a@);
        assert(b@.skip(0) =~= b@);
    }
    while i < n && i < m && a.get_char(i) == b.get_char(i)
        invariant
            i <= n,
            i <= m,
            n == a@.len(),
            m == b@.len(),
            precedes(a@, b@) == precedes(a@.skip(i as int), b@.skip(i as int)),
        decreases n - i,
    {
        proof {
            let x = a@.skip(i as int);
            let y = b@.skip(i as int);
            assert(x.drop_first() =~= a@.skip(i + 1));
            assert(y.drop_first() =~= b@.skip(i + 1));
            assert(x[0] == a@[i as int] && y[0] == b@[i as int]);
        }
        i += 1;
    }
    if i == m {
        false
    } else if i == n {
        true
    } else {
        assert(a@.skip(i as int)[0] == a@[i as int]);
        assert(b@.skip(i as int)[0] == b@[i as int]);
        a.get_char(i) < b.get_char(i)
    }
}

/// Puts a name at its place in an ascending list, unless it is there.
fn insert_name(names: &mut Vec<String>, name: String)
    requires
        ascending(views(old(names)@)),
    ensures
        ascending(views(final(names)@)),
        views(final(names)@).to_set() == views(old(names)@).to_set().insert(name@),
{
    let ghost all = views(names@);
    let ghost nv = name@;
    let mut at: usize = 0;
    while at < names.len() && is_before(names[at].as_str(), name.as_str())
        invariant
            at <= names.len(),
            all == views(names@),
            nv == name@,
            forall|k: int| 0 <= k < at ==> precedes(#[trigger] all[k], nv),
        decreases names.len() - at,
    {
        assert(all[at as int] == names@[at as int]@);
        at += 1;
    }
    if at < names.len() {
        assert(all[at as int] == names@[at as int]@);
        if names[at] == name {
            assert(all.contains(nv));
            assert(all.to_set() =~= all.to_set().insert(nv));
            return;
        }
    }
    proof {
        if at < all.len() {
            lemma_precedes_total(nv, all[at as int]);
            assert(precedes(nv, all[at as int]));
        }
        assert forall|k: int| at <= k < all.len() implies precedes(nv, #[trigger] all[k]) by {
            if k > at {
                lemma_precedes_transitive(nv, all[at as int], all[k]);
            }
        }
    }
    names.insert(at, name);
    proof {
        let now = views(names@);
        assert(now =~= all.insert(at as int, nv));
        assert forall|i: int, j: int| 0 <= i < j < now.len() implies precedes(
            #[trigger] now[i],
            #[trigger] now[j],
        ) by {
            let i0 = if i < at { i } else { i - 1 };
            let j0 = if j < at { j } else { j - 1 };
            if i != at && j != at {
                assert(precedes(all[i0], all[j0]));
            }
        }
        assert forall|x: Seq<char>| #[trigger]
            now.to_set().contains(x) == (all.to_set().contains(x) || x == nv) by {
            if now.contains(x) && x != nv {
                let k = choose|k: int| 0 <= k < now.len() && now[k] == x;
                assert(all[if k < at { k } else { k - 1 }] == x);
            }
            if all.contains(x) {
                let k = choose|k: int| 0 <= k < all.len() && all[k] == x;
                assert(now[if k < at { k } else { k + 1 }] == x);
            }
            if x == nv {
                assert(now[at as int] == x);
            }
        }
        assert(now.to_set() =~= all.to_set().insert(nv));
    }
}

/// Adds the internal server to a list of server names while the card is on. The list is then in
/// ascending order and holds every name once.
pub fn add_server_name(enabled: bool, names: &mut Vec<String>)
    ensures
        !enabled ==> *final(names) == *old(names),
        enabled ==> ascending(views(final(names)@)) && views(final(names)@).to_set() == views(
            old(names)@,
        ).to_set().insert(SERVER_NAME@),
{
    if !enabled {
        return;
    }
    let ghost all = views(names@);
    let mut sorted: Vec<String> = Vec::new();
    insert_name(&mut sorted, SERVER_NAME.to_owned());
    let mut i: usize = 0;
    assert(views(sorted@).to_set() =~= all.take(0).to_set().insert(SERVER_NAME@)) by {
        assert(views(Seq::<String>::empty()).to_set() =~= all.take(0).to_set());
        assert(all.take(0) =~= Seq::empty());
    }
    while i < names.len()
        invariant
            i <= names.len(),
            all == views(names@),
            ascending(views(sorted@)),
            views(sorted@).to_set() == all.take(i as int).to_set().insert(SERVER_NAME@),
        decreases names.len() - i,
    {
        let name = names[i].clone();
        insert_name(&mut sorted, name);
        proof {
            let a = all.take(i as int);
            let b = all.take(i + 1);
            assert(all[i as int] == names@[i as int]@);
            assert forall|x: Seq<char>| #[trigger] b.contains(x) == (a.contains(x) || x == all[i as int]) by {
                if a.contains(x) {
                    let j = choose|j: int| 0 <= j < a.len() && a[j] == x;
                    assert(b[j] == x);
                }
                if x == all[i as int] {
                    assert(b[i as int] == x);
                }
                if b.contains(x) && x != all[i as int] {
                    let j = choose|j: int| 0 <= j < b.len() && b[j] == x;
                    assert(a[j] == x);
                }
            }
            assert(views(sorted@).to_set() =~= b.to_set().insert(SERVER_NAME@));
        }
        i += 1;
    }
    assert(all.take(i as int) =~= all);
    *names = sorted;
}

} // verus!
