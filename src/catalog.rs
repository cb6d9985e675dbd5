//! Building the catalog from the descriptors of several directories.
use vstd::prelude::*;
use crate::application::{Application, ApplicationView, views};
use crate::desktop_entry::{ParseError, parse_desktop_entry, parse_spec};
use crate::text::{chars_of, same_text};

verus! {

/// One descriptor file as read from a directory: its base file name and its text.
pub struct Descriptor {
    pub id: String,
    pub content: String,
}

/// The applications that the descriptors of one directory give, in order; those that fail to parse are left out.
pub open spec fn parsed_dir(d: Seq<Descriptor>) -> Seq<ApplicationView>
    decreases d.len(),
{
    if d.len() == 0 {
        Seq::empty()
    } else {
        let p = parsed_dir(d.drop_last());
        match parse_spec(d.last().id@, d.last().content@) {
            Ok(a) => p.push(a),
            Err(_) => p,
        }
    }
}

/// Some entry of `s` has identity `id`.
pub open spec fn has_id(s: Seq<ApplicationView>, id: Seq<char>) -> bool {
    exists|i: int| 0 <= i < s.len() && #[trigger] s[i].id == id
}

/// No two entries of `s` share an identity.
pub open spec fn ids_unique(s: Seq<ApplicationView>) -> bool {
    forall|i: int, j: int| 0 <= i < j < s.len() ==> #[trigger] s[i].id != #[trigger] s[j].id
}

/// `cat` followed by each entry of `apps` whose identity is not there yet.
pub open spec fn absorb(cat: Seq<ApplicationView>, apps: Seq<ApplicationView>) -> Seq<ApplicationView>
    decreases apps.len(),
{
    if apps.len() == 0 {
        cat
    } else {
        let c = absorb(cat, apps.drop_last());
        if has_id(c, apps.last().id) {
            c
        } else {
            c.push(apps.last())
        }
    }
}

/// The descriptors of each directory.
pub open spec fn dir_seqs(dirs: Seq<Vec<Descriptor>>) -> Seq<Seq<Descriptor>> {
    dirs.map_values(|d: Vec<Descriptor>| d@)
}

/// The catalog of directories given highest priority first: an entry of a directory is kept
/// unless an earlier directory, or an earlier file of the same one, gave its identity.
pub open spec fn catalog_of(dirs: Seq<Seq<Descriptor>>) -> Seq<ApplicationView>
    decreases dirs.len(),
{
    if dirs.len() == 0 {
        Seq::empty()
    } else {
        absorb(catalog_of(dirs.drop_last()), parsed_dir(dirs.last()))
    }
}

fn contains_id(cat: &Vec<Application>, id: &String) -> (r: bool)
    ensures
        r == has_id(views(cat@), id@),
{
    let mut i: usize = 0;
    while i < cat.len()
        invariant
            i <= cat@.len(),
            forall|j: int| 0 <= j < i ==> cat@[j].id@ != id@,
        decreases cat@.len() - i,
    {
        if cat[i].id == *id {
            assert(views(cat@)[i as int].id == id@);
            return true;
        }
        i = i + 1;
    }
    assert forall|j: int| 0 <= j < views(cat@).len() implies #[trigger] views(cat@)[j].id != id@ by {
        assert(views(cat@)[j] == cat@[j]@);
    }
    false
}

/// The catalog of the directories `dirs`, given highest priority first.
pub fn build_catalog(dirs: &Vec<Vec<Descriptor>>) -> (r: Vec<Application>)
    ensures
        views(r@) == catalog_of(dir_seqs(dirs@)),
{
    let mut cat: Vec<Application> = Vec::new();
    let mut k: usize = 0;
    assert(dir_seqs(dirs@).take(0) =~= Seq::<Seq<Descriptor>>::empty());
    assert(views(cat@) =~= Seq::<ApplicationView>::empty());
    while k < dirs.len()
        invariant
            k <= dirs@.len(),
            views(cat@) == catalog_of(dir_seqs(dirs@).take(k as int)),
        decreases dirs@.len() - k,
    {
        let dir = &dirs[k];
        let ghost base = views(cat@);
        let mut j: usize = 0;
        assert(dir@.take(0) =~= Seq::<Descriptor>::empty());
        while j < dir.len()
            invariant
                j <= dir@.len(),
                dir == dirs@[k as int],
                views(cat@) == absorb(base, parsed_dir(dir@.take(j as int))),
            decreases dir@.len() - j,
        {
            let d = &dir[j];
            let ghost t = dir@.take(j + 1);
            assert(t.drop_last() =~= dir@.take(j as int));
            assert(t.last() == d);
            match parse_desktop_entry(d.id.as_str(), d.content.as_str()) {
                Ok(a) => {
                    let ghost p = parsed_dir(dir@.take(j as int));
                    assert(p.push(a@).drop_last() =~= p);
                    if !contains_id(&cat, &a.id) {
                        let ghost before = views(cat@);
                        cat.push(a);
                        assert(views(cat@) =~= before.push(a@));
                    }
                },
                Err(_) => {},
            }
            j = j + 1;
        }
        assert(dir@.take(dir@.len() as int) =~= dir@);
        assert(dir_seqs(dirs@).take(k + 1).drop_last() =~= dir_seqs(dirs@).take(k as int));
        assert(dir_seqs(dirs@)[k as int] == dir@);
        k = k + 1;
    }
    assert(dir_seqs(dirs@).take(dirs@.len() as int) =~= dir_seqs(dirs@));
    cat
}

proof fn lemma_absorb_has_id(c: Seq<ApplicationView>, apps: Seq<ApplicationView>, x: Seq<char>)
    ensures
        has_id(absorb(c, apps), x) <==> (has_id(c, x) || has_id(apps, x)),
    decreases apps.len(),
{
    if apps.len() > 0 {
        let rest = apps.drop_last();
        let l = apps.last();
        let c2 = absorb(c, rest);
        lemma_absorb_has_id(c, rest, x);
        if has_id(apps, x) {
            let i = choose|i: int| 0 <= i < apps.len() && #[trigger] apps[i].id == x;
            if i < apps.len() - 1 {
                assert(rest[i].id == x);
            }
        }
        if has_id(rest, x) {
            let i = choose|i: int| 0 <= i < rest.len() && #[trigger] rest[i].id == x;
            assert(apps[i].id == x);
        }
        if !has_id(c2, l.id) {
            let r = c2.push(l);
            if has_id(c2, x) {
                let i = choose|i: int| 0 <= i < c2.len() && #[trigger] c2[i].id == x;
                assert(r[i].id == x);
            }
            if l.id == x {
                assert(r[c2.len() as int].id == x);
            }
            if has_id(r, x) {
                let i = choose|i: int| 0 <= i < r.len() && #[trigger] r[i].id == x;
                if i < c2.len() {
                    assert(c2[i].id == x);
                }
            }
        }
        if l.id == x {
            assert(apps[apps.len() - 1].id == x);
        }
    }
}

proof fn lemma_absorb_prefix(c: Seq<ApplicationView>, apps: Seq<ApplicationView>)
    ensures
        absorb(c, apps).len() >= c.len(),
        forall|i: int| 0 <= i < c.len() ==> #[trigger] absorb(c, apps)[i] == c[i],
        ids_unique(c) ==> ids_unique(absorb(c, apps)),
    decreases apps.len(),
{
    if apps.len() > 0 {
        let rest = apps.drop_last();
        let c2 = absorb(c, rest);
        lemma_absorb_prefix(c, rest);
        if !has_id(c2, apps.last().id) {
            let r = c2.push(apps.last());
            assert forall|i: int, j: int| ids_unique(c2) && 0 <= i < j < r.len() implies #[trigger] r[i].id
                != #[trigger] r[j].id by {
                if j == c2.len() {
                    assert(c2[i].id == r[i].id);
                }
            }
        }
    }
}

/// Each entry that `absorb` adds to `c` is the first of `apps` with its identity, and that identity is not in `c`.
proof fn lemma_absorb_origin(c: Seq<ApplicationView>, apps: Seq<ApplicationView>, i: int)
    requires
        c.len() <= i < absorb(c, apps).len(),
    ensures
        exists|j: int|
            0 <= j < apps.len() && #[trigger] apps[j] == absorb(c, apps)[i] && !has_id(c, apps[j].id)
                && forall|m: int| 0 <= m < j ==> (#[trigger] apps[m]).id != apps[j].id,
    decreases apps.len(),
{
    let rest = apps.drop_last();
    let l = apps.last();
    let c2 = absorb(c, rest);
    lemma_absorb_prefix(c, rest);
    if i < c2.len() {
        lemma_absorb_origin(c, rest, i);
        let j = choose|j: int|
            0 <= j < rest.len() && #[trigger] rest[j] == c2[i] && !has_id(c, rest[j].id)
                && forall|m: int| 0 <= m < j ==> (#[trigger] rest[m]).id != rest[j].id;
        lemma_absorb_prefix(c2, seq![l]);
        assert(apps[j] == rest[j]);
        assert forall|m: int| 0 <= m < j implies (#[trigger] apps[m]).id != apps[j].id by {
            assert(apps[m] == rest[m]);
        }
    } else {
        let j = apps.len() - 1;
        lemma_absorb_has_id(c, rest, l.id);
        assert(!has_id(c2, l.id));
        assert(absorb(c, apps)[i] == l);
        assert forall|m: int| 0 <= m < j implies (#[trigger] apps[m]).id != apps[j].id by {
            if apps[m].id == l.id {
                assert(rest[m].id == l.id);
            }
        }
        assert(apps[j] == absorb(c, apps)[i]);
    }
}

/// Some directory's parsed entries hold identity `x`.
pub open spec fn some_dir_has_id(dirs: Seq<Seq<Descriptor>>, x: Seq<char>) -> bool {
    exists|k: int| 0 <= k < dirs.len() && has_id(#[trigger] parsed_dir(dirs[k]), x)
}

/// Entry `e` is the `j`-th parsed entry of directory `k`, no earlier directory gives its
/// identity, and no earlier entry of directory `k` has it.
pub open spec fn first_source(dirs: Seq<Seq<Descriptor>>, k: int, j: int, e: ApplicationView) -> bool {
    &&& 0 <= k < dirs.len()
    &&& 0 <= j < parsed_dir(dirs[k]).len()
    &&& parsed_dir(dirs[k])[j] == e
    &&& forall|m: int| 0 <= m < k ==> !has_id(#[trigger] parsed_dir(dirs[m]), e.id)
    &&& forall|m: int| 0 <= m < j ==> (#[trigger] parsed_dir(dirs[k])[m]).id != e.id
}

/// Entry `e` has a first source in `dirs`.
pub open spec fn has_first_source(dirs: Seq<Seq<Descriptor>>, e: ApplicationView) -> bool {
    exists|k: int, j: int| #[trigger] first_source(dirs, k, j, e)
}

/// Each entry of `cat` has a first source in `dirs`.
pub open spec fn each_first_source(dirs: Seq<Seq<Descriptor>>, cat: Seq<ApplicationView>) -> bool {
    forall|i: int| 0 <= i < cat.len() ==> #[trigger] has_first_source(dirs, cat[i])
}

proof fn lemma_catalog_has_id(dirs: Seq<Seq<Descriptor>>, x: Seq<char>)
    ensures
        has_id(catalog_of(dirs), x) <==> some_dir_has_id(dirs, x),
    decreases dirs.len(),
{
    if dirs.len() > 0 {
        let rest = dirs.drop_last();
        lemma_catalog_has_id(rest, x);
        lemma_absorb_has_id(catalog_of(rest), parsed_dir(dirs.last()), x);
        if some_dir_has_id(rest, x) {
            let k = choose|k: int| 0 <= k < rest.len() && has_id(#[trigger] parsed_dir(rest[k]), x);
            assert(dirs[k] == rest[k]);
            assert(has_id(parsed_dir(dirs[k]), x));
        }
        if has_id(parsed_dir(dirs.last()), x) {
            assert(has_id(parsed_dir(dirs[dirs.len() - 1]), x));
        }
        if some_dir_has_id(dirs, x) {
            let k = choose|k: int| 0 <= k < dirs.len() && has_id(#[trigger] parsed_dir(dirs[k]), x);
            if k < dirs.len() - 1 {
                assert(dirs[k] == rest[k]);
                assert(has_id(parsed_dir(rest[k]), x));
            }
        }
    }
}

/// Deduplication: the catalog holds one entry for each identity that some directory gives,
/// and that entry is the one of the highest-priority directory that gives it.
pub proof fn lemma_catalog_dedup(dirs: Seq<Seq<Descriptor>>)
    ensures
        ids_unique(catalog_of(dirs)),
        forall|x: Seq<char>| has_id(catalog_of(dirs), x) <==> #[trigger] some_dir_has_id(dirs, x),
        each_first_source(dirs, catalog_of(dirs)),
    decreases dirs.len(),
{
    assert forall|x: Seq<char>| has_id(catalog_of(dirs), x) <==> #[trigger] some_dir_has_id(dirs, x) by {
        lemma_catalog_has_id(dirs, x);
    }
    if dirs.len() > 0 {
        let rest = dirs.drop_last();
        let base = catalog_of(rest);
        let p = parsed_dir(dirs.last());
        let cat = catalog_of(dirs);
        lemma_catalog_dedup(rest);
        lemma_absorb_prefix(base, p);
        assert forall|i: int| 0 <= i < cat.len() implies #[trigger] has_first_source(dirs, cat[i]) by {
            if i < base.len() {
                assert(each_first_source(rest, base));
                assert(has_first_source(rest, base[i]));
                let (k, j) = choose|k: int, j: int| #[trigger] first_source(rest, k, j, base[i]);
                assert(dirs[k] == rest[k]);
                assert forall|m: int| 0 <= m < k implies !has_id(#[trigger] parsed_dir(dirs[m]), cat[i].id) by {
                    assert(dirs[m] == rest[m]);
                }
                assert(first_source(dirs, k, j, cat[i]));
                assert(has_first_source(dirs, cat[i]));
            } else {
                lemma_absorb_origin(base, p, i);
                let j = choose|j: int|
                    0 <= j < p.len() && #[trigger] p[j] == cat[i] && !has_id(base, p[j].id)
                        && forall|m: int| 0 <= m < j ==> (#[trigger] p[m]).id != p[j].id;
                let k = dirs.len() - 1;
                lemma_catalog_has_id(rest, cat[i].id);
                assert forall|m: int| 0 <= m < k implies !has_id(#[trigger] parsed_dir(dirs[m]), cat[i].id) by {
                    assert(dirs[m] == rest[m]);
                    if has_id(parsed_dir(dirs[m]), cat[i].id) {
                        assert(has_id(parsed_dir(rest[m]), cat[i].id));
                    }
                }
                assert(first_source(dirs, k, j, cat[i]));
                assert(has_first_source(dirs, cat[i]));
            }
        }
        assert(each_first_source(dirs, cat));
    } else {
        assert(catalog_of(dirs) =~= Seq::<ApplicationView>::empty());
        assert(each_first_source(dirs, catalog_of(dirs)));
    }
}

proof fn lemma_parsed_dir_has(d: Seq<Descriptor>, m: int)
    requires
        0 <= m < d.len(),
        parse_spec(d[m].id@, d[m].content@) is Ok,
    ensures
        has_id(parsed_dir(d), d[m].id@),
    decreases d.len(),
{
    let p = parsed_dir(d.drop_last());
    if m < d.len() - 1 {
        assert(d.drop_last()[m] == d[m]);
        lemma_parsed_dir_has(d.drop_last(), m);
        let i = choose|i: int| 0 <= i < p.len() && #[trigger] p[i].id == d[m].id@;
        match parse_spec(d.last().id@, d.last().content@) {
            Ok(a) => assert(p.push(a)[i].id == d[m].id@),
            Err(_) => {},
        }
    } else {
        let a = parse_spec(d[m].id@, d[m].content@).unwrap();
        assert(p.push(a)[p.len() as int].id == d[m].id@);
    }
}

proof fn lemma_parsed_dir_origin(d: Seq<Descriptor>, j: int)
    requires
        0 <= j < parsed_dir(d).len(),
    ensures
        exists|m: int| 0 <= m < d.len() && parse_spec(d[m].id@, d[m].content@) == Ok::<ApplicationView, ParseError>(#[trigger] parsed_dir(d)[j]),
    decreases d.len(),
{
    let p = parsed_dir(d.drop_last());
    if j < p.len() {
        lemma_parsed_dir_origin(d.drop_last(), j);
        let m = choose|m: int| 0 <= m < d.drop_last().len() && parse_spec(d.drop_last()[m].id@, d.drop_last()[m].content@) == Ok::<ApplicationView, ParseError>(#[trigger] parsed_dir(d.drop_last())[j]);
        assert(d[m] == d.drop_last()[m]);
        match parse_spec(d.last().id@, d.last().content@) {
            Ok(a) => assert(p.push(a)[j] == p[j]),
            Err(_) => {},
        }
    } else {
        let m = d.len() - 1;
        assert(parse_spec(d[m].id@, d[m].content@) == Ok::<ApplicationView, ParseError>(parsed_dir(d)[j]));
    }
}

/// Admission: a descriptor that parses always gives its identity to the catalog, and every
/// catalog entry is what some descriptor parses to (so one without a name or a command,
/// which fails to parse, never enters).
pub proof fn lemma_catalog_admission(dirs: Seq<Seq<Descriptor>>)
    ensures
        forall|k: int, m: int|
            0 <= k < dirs.len() && 0 <= m < dirs[k].len() && (parse_spec(
                #[trigger] dirs[k][m].id@,
                dirs[k][m].content@,
            ) is Ok) ==> has_id(catalog_of(dirs), dirs[k][m].id@),
        forall|i: int|
            0 <= i < catalog_of(dirs).len() ==> exists|k: int, m: int|
                0 <= k < dirs.len() && 0 <= m < dirs[k].len() && #[trigger] parse_spec(
                    dirs[k][m].id@,
                    dirs[k][m].content@,
                ) == Ok::<ApplicationView, ParseError>(#[trigger] catalog_of(dirs)[i]),
{
    lemma_catalog_dedup(dirs);
    assert forall|k: int, m: int|
        0 <= k < dirs.len() && 0 <= m < dirs[k].len() && (parse_spec(
            #[trigger] dirs[k][m].id@,
            dirs[k][m].content@,
        ) is Ok) implies has_id(catalog_of(dirs), dirs[k][m].id@) by {
        lemma_parsed_dir_has(dirs[k], m);
        assert(some_dir_has_id(dirs, dirs[k][m].id@));
    }
    assert forall|i: int| 0 <= i < catalog_of(dirs).len() implies exists|k: int, m: int|
        0 <= k < dirs.len() && 0 <= m < dirs[k].len() && #[trigger] parse_spec(
            dirs[k][m].id@,
            dirs[k][m].content@,
        ) == Ok::<ApplicationView, ParseError>(#[trigger] catalog_of(dirs)[i]) by {
        assert(has_first_source(dirs, catalog_of(dirs)[i]));
        let (k, j) = choose|k: int, j: int| #[trigger] first_source(dirs, k, j, catalog_of(dirs)[i]);
        lemma_parsed_dir_origin(dirs[k], j);
    }
}

/// The directories searched for descriptors, highest priority first: the user's own
/// directory under `home`, then the system-wide one.
pub fn application_dirs(home: &str) -> (r: Vec<String>)
    ensures
        r.deep_view() == seq![home@ + "/.local/share/applications/"@, "/usr/share/applications/"@],
{
    let mut user = String::from_str(home);
    user.append("/.local/share/applications/");
    let mut r: Vec<String> = Vec::new();
    r.push(user);
    r.push(String::from_str("/usr/share/applications/"));
    assert(r.deep_view() =~= seq![home@ + "/.local/share/applications/"@, "/usr/share/applications/"@]);
    r
}

/// A file name with a stem and the descriptor extension `.desktop`.
pub open spec fn is_descriptor_name(name: Seq<char>) -> bool {
    name.len() > 8 && name.skip(name.len() - 8) == ".desktop"@
}

/// Whether a file of this name is a descriptor.
pub fn has_descriptor_extension(name: &str) -> (r: bool)
    ensures
        r == is_descriptor_name(name@),
{
    let n = name.unicode_len();
    if n <= 8 {
        return false;
    }
    let tail = name.substring_char(n - 8, n);
    let t = chars_of(tail);
    assert(name@.skip(n - 8) =~= tail@);
    same_text(&t, ".desktop")
}

} // verus!
