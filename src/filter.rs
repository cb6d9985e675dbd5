//! Choosing and ordering the applications whose names match the filter text.
use vstd::prelude::*;
use vstd::multiset::Multiset;
use crate::application::{Application, ApplicationView, views};
use crate::text::{chars_of, lex_le, occurs_in};

verus! {

/// What `str::to_lowercase` makes of a text.
pub uninterp spec fn lower_of(s: Seq<char>) -> Seq<char>;

/// Relies on str::to_lowercase: the result depends on the characters alone, and an empty
/// text stays empty.
#[verifier::external_body]
fn lowercase(s: &str) -> (r: String)
    ensures
        r@ == lower_of(s@),
        s@.len() == 0 ==> r@.len() == 0,
{
    s.to_lowercase()
}

/// Each application paired with its sort key.
pub open spec fn keyed(apps: Seq<ApplicationView>, keys: Seq<Seq<char>>) -> Seq<(Seq<char>, ApplicationView)> {
    Seq::new(apps.len(), |i: int| (keys[i], apps[i]))
}

/// The pairs whose key contains `q`, in their order.
pub open spec fn matching(ps: Seq<(Seq<char>, ApplicationView)>, q: Seq<char>) -> Seq<(Seq<char>, ApplicationView)>
    decreases ps.len(),
{
    if ps.len() == 0 {
        Seq::empty()
    } else if occurs_in(q, ps.last().0) {
        matching(ps.drop_last(), q).push(ps.last())
    } else {
        matching(ps.drop_last(), q)
    }
}

/// `x` put into `s` after every pair whose key comes no later than its own.
pub open spec fn insert_sorted(s: Seq<(Seq<char>, ApplicationView)>, x: (Seq<char>, ApplicationView)) -> Seq<(Seq<char>, ApplicationView)>
    decreases s.len(),
{
    if s.len() == 0 {
        seq![x]
    } else if lex_le(s.last().0, x.0) {
        s.push(x)
    } else {
        insert_sorted(s.drop_last(), x).push(s.last())
    }
}

/// Stable sort of pairs by key.
pub open spec fn sort_keyed(s: Seq<(Seq<char>, ApplicationView)>) -> Seq<(Seq<char>, ApplicationView)>
    decreases s.len(),
{
    if s.len() == 0 {
        Seq::empty()
    } else {
        insert_sorted(sort_keyed(s.drop_last()), s.last())
    }
}

pub open spec fn project(s: Seq<(Seq<char>, ApplicationView)>) -> Seq<ApplicationView> {
    s.map_values(|p: (Seq<char>, ApplicationView)| p.1)
}

/// The applications whose key contains `q`, ordered by key; equal keys keep catalog order.
pub open spec fn select_spec(apps: Seq<ApplicationView>, keys: Seq<Seq<char>>, q: Seq<char>) -> Seq<ApplicationView> {
    project(sort_keyed(matching(keyed(apps, keys), q)))
}

/// The names of `apps` as `str::to_lowercase` gives them.
pub open spec fn lower_names(apps: Seq<ApplicationView>) -> Seq<Seq<char>> {
    apps.map_values(|a: ApplicationView| lower_of(a.name))
}

/// The filter result: applications whose lower-cased name contains the lower-cased filter
/// text, in ascending order of lower-cased name.
pub open spec fn filtered(apps: Seq<ApplicationView>, q: Seq<char>) -> Seq<ApplicationView> {
    select_spec(apps, lower_names(apps), lower_of(q))
}

/// Whether `q` occurs in `t`.
pub fn occurs(q: &Vec<char>, t: &Vec<char>) -> (r: bool)
    ensures
        r == occurs_in(q@, t@),
{
    if q.len() > t.len() {
        return false;
    }
    if q.len() == 0 {
        assert(t@.subrange(0, 0 + q@.len() as int) =~= q@);
        return true;
    }
    let last = t.len() - q.len();
    let mut i: usize = 0;
    while i <= last
        invariant
            1 <= q@.len() <= t@.len() <= usize::MAX,
            last == t@.len() - q@.len(),
            i <= last + 1,
            forall|k: int| 0 <= k < i ==> #[trigger] t@.subrange(k, k + q@.len()) != q@,
        decreases last + 1 - i,
    {
        let mut j: usize = 0;
        while j < q.len() && t[i + j] == q[j]
            invariant
                i <= last,
                1 <= q@.len() <= t@.len() <= usize::MAX,
                last == t@.len() - q@.len(),
                j <= q@.len(),
                forall|m: int| 0 <= m < j ==> t@[i + m] == q@[m],
            decreases q@.len() - j,
        {
            j = j + 1;
        }
        if j == q.len() {
            assert(t@.subrange(i as int, i + q@.len()) =~= q@);
            return true;
        }
        assert(t@.subrange(i as int, i + q@.len())[j as int] != q@[j as int]);
        i = i + 1;
    }
    false
}

/// Whether `a` comes no later than `b` in code-point order.
pub fn lex_le_exec(a: &Vec<char>, b: &Vec<char>) -> (r: bool)
    ensures
        r == lex_le(a@, b@),
{
    let mut i: usize = 0;
    assert(a@.skip(0) =~= a@);
    assert(b@.skip(0) =~= b@);
    loop
        invariant
            i <= a@.len(),
            i <= b@.len(),
            lex_le(a@, b@) == lex_le(a@.skip(i as int), b@.skip(i as int)),
        decreases a@.len() - i,
    {
        if i == a.len() {
            return true;
        }
        if i == b.len() {
            return false;
        }
        let x = a[i] as u32;
        let y = b[i] as u32;
        if x < y {
            return true;
        }
        if x > y {
            return false;
        }
        assert(a@.skip(i as int).drop_first() =~= a@.skip(i + 1));
        assert(b@.skip(i as int).drop_first() =~= b@.skip(i + 1));
        i = i + 1;
    }
}

/// Adjacent keys of `s` are in order.
pub open spec fn keys_sorted(s: Seq<(Seq<char>, ApplicationView)>) -> bool {
    forall|i: int| 0 <= i < s.len() - 1 ==> lex_le(#[trigger] s[i].0, s[i + 1].0)
}

proof fn lemma_lex_total(a: Seq<char>, b: Seq<char>)
    ensures
        lex_le(a, b) || lex_le(b, a),
    decreases a.len(),
{
    if a.len() > 0 && b.len() > 0 && (a[0] as u32) == (b[0] as u32) {
        lemma_lex_total(a.drop_first(), b.drop_first());
    }
}

proof fn lemma_insert_at(s: Seq<(Seq<char>, ApplicationView)>, x: (Seq<char>, ApplicationView), j: int)
    requires
        0 <= j <= s.len(),
        forall|t: int| j <= t < s.len() ==> !lex_le(#[trigger] s[t].0, x.0),
        j == 0 || lex_le(s[j - 1].0, x.0),
    ensures
        insert_sorted(s, x) == s.insert(j, x),
    decreases s.len(),
{
    if s.len() == 0 {
        assert(s.insert(j, x) =~= seq![x]);
    } else if lex_le(s.last().0, x.0) {
        assert(s.insert(j, x) =~= s.push(x));
    } else {
        let t = s.drop_last();
        lemma_insert_at(t, x, j);
        assert(t.insert(j, x).push(s.last()) =~= s.insert(j, x));
    }
}

proof fn lemma_insert_sorted(s: Seq<(Seq<char>, ApplicationView)>, x: (Seq<char>, ApplicationView))
    ensures
        insert_sorted(s, x).len() == s.len() + 1,
        insert_sorted(s, x).to_multiset() =~= s.to_multiset().insert(x),
        keys_sorted(s) ==> keys_sorted(insert_sorted(s, x)),
        insert_sorted(s, x).last() == x || (s.len() > 0 && insert_sorted(s, x).last() == s.last()),
    decreases s.len(),
{
    broadcast use vstd::seq_lib::group_to_multiset_ensures;

    let r = insert_sorted(s, x);
    if s.len() == 0 {
        assert(seq![x] =~= Seq::<(Seq<char>, ApplicationView)>::empty().push(x));
    } else if lex_le(s.last().0, x.0) {
    } else {
        let t = s.drop_last();
        lemma_insert_sorted(t, x);
        assert(t.push(s.last()) =~= s);
        lemma_lex_total(s.last().0, x.0);
        if keys_sorted(s) {
            let q = insert_sorted(t, x);
            assert forall|i: int| 0 <= i < r.len() - 1 implies lex_le(#[trigger] r[i].0, r[i + 1].0) by {
                if i < r.len() - 2 {
                    assert(r[i] == q[i] && r[i + 1] == q[i + 1]);
                    if !lex_le(q[i].0, q[i + 1].0) {
                        assert forall|m: int| 0 <= m < t.len() - 1 implies lex_le(#[trigger] t[m].0, t[m + 1].0) by {
                            assert(t[m] == s[m] && t[m + 1] == s[m + 1]);
                        }
                    }
                } else {
                    assert(r[i] == q.last());
                    if t.len() > 0 && q.last() == t.last() {
                        assert(t.last() == s[s.len() - 2]);
                    }
                }
            }
        }
    }
}

proof fn lemma_sort_keyed(s: Seq<(Seq<char>, ApplicationView)>)
    ensures
        sort_keyed(s).to_multiset() =~= s.to_multiset(),
        keys_sorted(sort_keyed(s)),
        sort_keyed(s).len() == s.len(),
    decreases s.len(),
{
    broadcast use vstd::seq_lib::group_to_multiset_ensures;

    if s.len() > 0 {
        lemma_sort_keyed(s.drop_last());
        lemma_insert_sorted(sort_keyed(s.drop_last()), s.last());
        assert(s.drop_last().push(s.last()) =~= s);
    } else {
        assert(s.to_multiset() =~= Multiset::empty());
        assert(sort_keyed(s).to_multiset() =~= Multiset::empty());
    }
}

struct Entry {
    key: Vec<char>,
    app: Application,
}

spec fn entries_view(s: Seq<Entry>) -> Seq<(Seq<char>, ApplicationView)> {
    s.map_values(|e: Entry| (e.key@, e.app@))
}

fn insert_entry(sorted: &mut Vec<Entry>, e: Entry)
    ensures
        entries_view(final(sorted)@) == insert_sorted(entries_view(old(sorted)@), (e.key@, e.app@)),
{
    let ghost before = entries_view(sorted@);
    let ghost x = (e.key@, e.app@);
    let mut j: usize = sorted.len();
    while j > 0 && !lex_le_exec(&sorted[j - 1].key, &e.key)
        invariant
            j <= sorted@.len(),
            before == entries_view(sorted@),
            forall|t: int| j <= t < sorted@.len() ==> !lex_le(#[trigger] before[t].0, e.key@),
        decreases j,
    {
        j = j - 1;
    }
    proof {
        lemma_insert_at(before, x, j as int);
    }
    sorted.insert(j, e);
    assert(entries_view(sorted@) =~= before.insert(j as int, x));
}

/// The applications of `apps` whose key in `keys` contains `query`, in ascending order of key;
/// applications with equal keys keep their order in `apps`.
pub fn select_sorted(apps: &Vec<Application>, keys: &Vec<String>, query: &str) -> (r: Vec<Application>)
    requires
        apps@.len() == keys@.len(),
    ensures
        views(r@) == select_spec(views(apps@), keys.deep_view(), query@),
{
    let q = chars_of(query);
    let ghost ps = keyed(views(apps@), keys.deep_view());
    let mut sorted: Vec<Entry> = Vec::new();
    let mut i: usize = 0;
    assert(ps.take(0) =~= Seq::<(Seq<char>, ApplicationView)>::empty());
    assert(entries_view(sorted@) =~= Seq::<(Seq<char>, ApplicationView)>::empty());
    while i < apps.len()
        invariant
            i <= apps@.len() == keys@.len(),
            ps == keyed(views(apps@), keys.deep_view()),
            q@ == query@,
            entries_view(sorted@) == sort_keyed(matching(ps.take(i as int), q@)),
        decreases apps@.len() - i,
    {
        let k = chars_of(keys[i].as_str());
        let ghost x = ps[i as int];
        assert(x == (k@, apps@[i as int]@));
        assert(ps.take(i + 1).drop_last() =~= ps.take(i as int));
        if occurs(&q, &k) {
            let e = Entry { key: k, app: apps[i].duplicate() };
            insert_entry(&mut sorted, e);
            let ghost m = matching(ps.take(i as int), q@);
            assert(m.push(x).drop_last() =~= m);
        }
        i = i + 1;
    }
    assert(ps.take(apps@.len() as int) =~= ps);
    let mut r: Vec<Application> = Vec::new();
    let mut j: usize = 0;
    assert(views(r@) =~= project(entries_view(sorted@)).take(0));
    while j < sorted.len()
        invariant
            j <= sorted@.len(),
            views(r@) == project(entries_view(sorted@)).take(j as int),
        decreases sorted@.len() - j,
    {
        let ghost before = views(r@);
        let a = sorted[j].app.duplicate();
        r.push(a);
        assert(views(r@) =~= before.push(a@));
        j = j + 1;
        assert(project(entries_view(sorted@)).take(j as int) =~= project(entries_view(sorted@)).take(j - 1).push(a@));
    }
    assert(project(entries_view(sorted@)).take(sorted@.len() as int) =~= project(entries_view(sorted@)));
    r
}

/// Adjacent entries of `s` are in ascending order of lower-cased name.
pub open spec fn names_sorted(s: Seq<ApplicationView>) -> bool {
    forall|i: int| 0 <= i < s.len() - 1 ==> lex_le(lower_of(#[trigger] s[i].name), lower_of(s[i + 1].name))
}

proof fn lemma_push_contains<A>(s: Seq<A>, x: A, p: A)
    ensures
        s.push(x).contains(p) <==> (s.contains(p) || p == x),
{
    if s.contains(p) {
        let i = choose|i: int| 0 <= i < s.len() && s[i] == p;
        assert(s.push(x)[i] == p);
    }
    if p == x {
        assert(s.push(x)[s.len() as int] == p);
    }
    if s.push(x).contains(p) && p != x {
        let i = choose|i: int| 0 <= i < s.push(x).len() && s.push(x)[i] == p;
        assert(s[i] == p);
    }
}

proof fn lemma_matching_members(ps: Seq<(Seq<char>, ApplicationView)>, q: Seq<char>)
    ensures
        forall|p: (Seq<char>, ApplicationView)|
            #[trigger] matching(ps, q).contains(p) <==> (ps.contains(p) && occurs_in(q, p.0)),
        (forall|t: Seq<char>| occurs_in(q, t)) ==> matching(ps, q) == ps,
    decreases ps.len(),
{
    if ps.len() > 0 {
        let rest = ps.drop_last();
        let l = ps.last();
        let m = matching(rest, q);
        lemma_matching_members(rest, q);
        assert(rest.push(l) =~= ps);
        assert forall|p: (Seq<char>, ApplicationView)|
            #[trigger] matching(ps, q).contains(p) <==> (ps.contains(p) && occurs_in(q, p.0)) by {
            lemma_push_contains(rest, l, p);
            lemma_push_contains(m, l, p);
        }
    } else {
        assert(matching(ps, q) =~= ps);
    }
}

proof fn lemma_empty_occurs(t: Seq<char>)
    ensures
        occurs_in(Seq::<char>::empty(), t),
{
    assert(t.subrange(0, 0 + Seq::<char>::empty().len() as int) =~= Seq::<char>::empty());
}

/// Membership and order: an application is in the filter result exactly when it is in the
/// catalog and its lower-cased name contains the lower-cased filter text, and the result is
/// in ascending order of lower-cased name.
pub proof fn lemma_filter_members(apps: Seq<ApplicationView>, q: Seq<char>)
    ensures
        forall|x: ApplicationView|
            #[trigger] filtered(apps, q).contains(x) <==> (apps.contains(x) && occurs_in(
                lower_of(q),
                lower_of(x.name),
            )),
        names_sorted(filtered(apps, q)),
{
    broadcast use vstd::seq_lib::group_to_multiset_ensures;

    let k = keyed(apps, lower_names(apps));
    let m = matching(k, lower_of(q));
    let st = sort_keyed(m);
    let r = filtered(apps, q);
    lemma_matching_members(k, lower_of(q));
    lemma_sort_keyed(m);
    assert forall|p: (Seq<char>, ApplicationView)| st.contains(p) <==> m.contains(p) by {
        assert(st.to_multiset().count(p) == m.to_multiset().count(p));
    }
    assert forall|p: (Seq<char>, ApplicationView)| k.contains(p) implies p.0 == lower_of(p.1.name) by {
        {
            let i = choose|i: int| 0 <= i < k.len() && k[i] == p;
            assert(k[i] == (lower_names(apps)[i], apps[i]));
        }
    }
    assert forall|i: int| 0 <= i < st.len() implies st[i].0 == lower_of(r[i].name) by {
        assert(st.contains(st[i]));
        assert(r[i] == st[i].1);
    }
    assert forall|x: ApplicationView|
        #[trigger] r.contains(x) <==> (apps.contains(x) && occurs_in(lower_of(q), lower_of(x.name))) by {
        if r.contains(x) {
            let i = choose|i: int| 0 <= i < r.len() && r[i] == x;
            assert(st.contains(st[i]));
            assert(r[i] == st[i].1);
            let j = choose|j: int| 0 <= j < k.len() && k[j] == st[i];
            assert(k[j] == (lower_names(apps)[j], apps[j]));
            assert(apps[j] == x);
        }
        if apps.contains(x) && occurs_in(lower_of(q), lower_of(x.name)) {
            let j = choose|j: int| 0 <= j < apps.len() && apps[j] == x;
            let p = (lower_of(x.name), x);
            assert(k[j] == p);
            assert(k.contains(p));
            assert(st.contains(p));
            let i = choose|i: int| 0 <= i < st.len() && st[i] == p;
            assert(r[i] == x);
        }
    }
    assert forall|i: int| 0 <= i < r.len() - 1 implies lex_le(lower_of(#[trigger] r[i].name), lower_of(r[i + 1].name)) by {
        assert(lex_le(st[i].0, st[i + 1].0));
    }
}

/// An empty filter text: when the lower-cased filter text is empty, the result holds every
/// catalog entry, as many as there are, in ascending order of lower-cased name.
pub proof fn lemma_empty_filter(apps: Seq<ApplicationView>, q: Seq<char>)
    requires
        lower_of(q).len() == 0,
    ensures
        filtered(apps, q).len() == apps.len(),
        forall|j: int| 0 <= j < apps.len() ==> filtered(apps, q).contains(#[trigger] apps[j]),
        names_sorted(filtered(apps, q)),
{
    let k = keyed(apps, lower_names(apps));
    assert(lower_of(q) =~= Seq::<char>::empty());
    assert forall|t: Seq<char>| occurs_in(lower_of(q), t) by {
        lemma_empty_occurs(t);
    }
    lemma_matching_members(k, lower_of(q));
    lemma_sort_keyed(matching(k, lower_of(q)));
    lemma_filter_members(apps, q);
    assert forall|j: int| 0 <= j < apps.len() implies filtered(apps, q).contains(#[trigger] apps[j]) by {
        lemma_empty_occurs(lower_of(apps[j].name));
        assert(apps.contains(apps[j]));
    }
}

/// Determinism: the same catalog and filter text always give the same sequence.
pub proof fn lemma_filter_deterministic(a1: Seq<ApplicationView>, a2: Seq<ApplicationView>, q1: Seq<char>, q2: Seq<char>)
    requires
        a1 == a2,
        q1 == q2,
    ensures
        filtered(a1, q1) == filtered(a2, q2),
{
}

/// The applications of `apps` whose name contains `query`, ignoring case, in ascending
/// order of lower-cased name; applications with equal lower-cased names keep their order.
pub fn filter_applications(apps: &Vec<Application>, query: &str) -> (r: Vec<Application>)
    ensures
        views(r@) == filtered(views(apps@), query@),
        names_sorted(views(r@)),
        query@.len() == 0 ==> views(r@).len() == apps@.len() && forall|j: int|
            0 <= j < apps@.len() ==> views(r@).contains(#[trigger] views(apps@)[j]),
{
    let mut keys: Vec<String> = Vec::new();
    let mut i: usize = 0;
    assert(keys.deep_view() =~= lower_names(views(apps@)).take(0));
    while i < apps.len()
        invariant
            i <= apps@.len(),
            keys.deep_view() == lower_names(views(apps@)).take(i as int),
        decreases apps@.len() - i,
    {
        let ghost before = keys.deep_view();
        let k = lowercase(apps[i].name.as_str());
        keys.push(k);
        assert(keys.deep_view() =~= before.push(k@));
        i = i + 1;
        assert(lower_names(views(apps@)).take(i as int) =~= lower_names(views(apps@)).take(i - 1).push(k@));
    }
    assert(lower_names(views(apps@)).take(apps@.len() as int) =~= lower_names(views(apps@)));
    let q = lowercase(query);
    let r = select_sorted(apps, &keys, q.as_str());
    proof {
        lemma_filter_members(views(apps@), query@);
        if query@.len() == 0 {
            lemma_empty_filter(views(apps@), query@);
        }
    }
    r
}

} // verus!
