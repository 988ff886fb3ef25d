use vstd::prelude::*;
use crate::entry::{entries, names_of, views, Wallpaper};

verus! {

/// The entries whose name is still in the scan, in their order.
pub open spec fn kept(e: Seq<(Seq<char>, usize)>, scan: Seq<Seq<char>>) -> Seq<(Seq<char>, usize)>
    decreases e.len(),
{
    if e.len() == 0 {
        Seq::empty()
    } else {
        let k = kept(e.drop_last(), scan);
        if scan.contains(e.last().0) {
            k.push(e.last())
        } else {
            k
        }
    }
}

/// A fresh entry, with count zero, for each scanned name that is not yet
/// known, in scan order.
pub open spec fn added(scan: Seq<Seq<char>>, known: Seq<Seq<char>>) -> Seq<(Seq<char>, usize)>
    decreases scan.len(),
{
    if scan.len() == 0 {
        Seq::empty()
    } else {
        let a = added(scan.drop_last(), known);
        if known.contains(scan.last()) {
            a
        } else {
            a.push((scan.last(), 0usize))
        }
    }
}

/// The entries after reconciliation with a scan: the surviving
/// entries unchanged and in order, then the new names with count zero.
pub open spec fn reconciled(e: Seq<(Seq<char>, usize)>, scan: Seq<Seq<char>>) -> Seq<
    (Seq<char>, usize),
> {
    kept(e, scan) + added(scan, names_of(e))
}

proof fn lemma_names_push(e: Seq<(Seq<char>, usize)>, p: (Seq<char>, usize))
    ensures
        names_of(e.push(p)) == names_of(e).push(p.0),
{
    assert(names_of(e.push(p)) =~= names_of(e).push(p.0));
}

proof fn lemma_names_concat(a: Seq<(Seq<char>, usize)>, b: Seq<(Seq<char>, usize)>)
    ensures
        names_of(a + b) == names_of(a) + names_of(b),
{
    assert(names_of(a + b) =~= names_of(a) + names_of(b));
}

proof fn lemma_push_contains(s: Seq<Seq<char>>, a: Seq<char>, x: Seq<char>)
    ensures
        s.push(a).contains(x) <==> (s.contains(x) || a == x),
{
    if s.contains(x) {
        let i = choose|i: int| 0 <= i < s.len() && s[i] == x;
        assert(s.push(a)[i] == x);
    }
    if a == x {
        assert(s.push(a)[s.len() as int] == x);
    }
    if s.push(a).contains(x) {
        let i = choose|i: int| 0 <= i < s.len() + 1 && s.push(a)[i] == x;
        if i < s.len() {
            assert(s[i] == x);
        }
    }
}

proof fn lemma_concat_contains(s: Seq<Seq<char>>, t: Seq<Seq<char>>, x: Seq<char>)
    ensures
        (s + t).contains(x) <==> (s.contains(x) || t.contains(x)),
{
    if s.contains(x) {
        let i = choose|i: int| 0 <= i < s.len() && s[i] == x;
        assert((s + t)[i] == x);
    }
    if t.contains(x) {
        let i = choose|i: int| 0 <= i < t.len() && t[i] == x;
        assert((s + t)[s.len() + i] == x);
    }
    if (s + t).contains(x) {
        let i = choose|i: int| 0 <= i < s.len() + t.len() && (s + t)[i] == x;
        if i < s.len() {
            assert(s[i] == x);
        } else {
            assert(t[i - s.len()] == x);
        }
    }
}

proof fn lemma_kept_names(e: Seq<(Seq<char>, usize)>, scan: Seq<Seq<char>>, x: Seq<char>)
    ensures
        names_of(kept(e, scan)).contains(x) <==> (names_of(e).contains(x) && scan.contains(x)),
    decreases e.len(),
{
    if e.len() > 0 {
        let p = e.drop_last();
        lemma_kept_names(p, scan, x);
        lemma_names_push(kept(p, scan), e.last());
        assert(e == p.push(e.last()));
        lemma_names_push(p, e.last());
        lemma_push_contains(names_of(kept(p, scan)), e.last().0, x);
        lemma_push_contains(names_of(p), e.last().0, x);
    } else {
        assert(names_of(e).len() == 0);
    }
}

proof fn lemma_added_names(scan: Seq<Seq<char>>, known: Seq<Seq<char>>, x: Seq<char>)
    ensures
        names_of(added(scan, known)).contains(x) <==> (scan.contains(x) && !known.contains(x)),
    decreases scan.len(),
{
    if scan.len() > 0 {
        let p = scan.drop_last();
        lemma_added_names(p, known, x);
        lemma_names_push(added(p, known), (scan.last(), 0usize));
        assert(scan == p.push(scan.last()));
        lemma_push_contains(names_of(added(p, known)), scan.last(), x);
        lemma_push_contains(p, scan.last(), x);
    }
}

proof fn lemma_kept_all(e: Seq<(Seq<char>, usize)>, scan: Seq<Seq<char>>)
    requires
        forall|i: int| 0 <= i < e.len() ==> scan.contains(#[trigger] e[i].0),
    ensures
        kept(e, scan) == e,
    decreases e.len(),
{
    if e.len() > 0 {
        let p = e.drop_last();
        assert forall|i: int| 0 <= i < p.len() implies scan.contains(#[trigger] p[i].0) by {
            assert(p[i] == e[i]);
        }
        lemma_kept_all(p, scan);
        assert(scan.contains(e[e.len() - 1].0));
        assert(p.push(e.last()) =~= e);
    }
}

proof fn lemma_added_none(scan: Seq<Seq<char>>, known: Seq<Seq<char>>)
    requires
        forall|i: int| 0 <= i < scan.len() ==> known.contains(#[trigger] scan[i]),
    ensures
        added(scan, known) == Seq::<(Seq<char>, usize)>::empty(),
    decreases scan.len(),
{
    if scan.len() > 0 {
        let p = scan.drop_last();
        assert forall|i: int| 0 <= i < p.len() implies known.contains(#[trigger] p[i]) by {
            assert(p[i] == scan[i]);
        }
        lemma_added_none(p, known);
        assert(known.contains(scan[scan.len() - 1]));
    }
}

/// A name is present after reconciliation exactly when it is in the scan.
pub proof fn lemma_reconciled_names(e: Seq<(Seq<char>, usize)>, scan: Seq<Seq<char>>, x: Seq<char>)
    ensures
        names_of(reconciled(e, scan)).contains(x) <==> scan.contains(x),
{
    lemma_names_concat(kept(e, scan), added(scan, names_of(e)));
    lemma_kept_names(e, scan, x);
    lemma_added_names(scan, names_of(e), x);
    lemma_concat_contains(names_of(kept(e, scan)), names_of(added(scan, names_of(e))), x);
}

/// After reconciliation the set of names is exactly the set of
/// scanned names.
pub proof fn lemma_reconcile_complete(e: Seq<(Seq<char>, usize)>, scan: Seq<Seq<char>>)
    ensures
        names_of(reconciled(e, scan)).to_set() == scan.to_set(),
{
    assert forall|x: Seq<char>| names_of(reconciled(e, scan)).to_set().contains(x)
        <==> scan.to_set().contains(x) by {
        lemma_reconciled_names(e, scan, x);
    }
    assert(names_of(reconciled(e, scan)).to_set() =~= scan.to_set());
}

/// Reconciling an already reconciled collection against the same scan
/// changes nothing.
pub proof fn lemma_reconcile_idempotent(e: Seq<(Seq<char>, usize)>, scan: Seq<Seq<char>>)
    ensures
        reconciled(reconciled(e, scan), scan) == reconciled(e, scan),
{
    let r = reconciled(e, scan);
    assert forall|i: int| 0 <= i < r.len() implies scan.contains(#[trigger] r[i].0) by {
        assert(names_of(r)[i] == r[i].0);
        lemma_reconciled_names(e, scan, r[i].0);
    }
    lemma_kept_all(r, scan);
    assert forall|i: int| 0 <= i < scan.len() implies names_of(r).contains(#[trigger] scan[i]) by {
        lemma_reconciled_names(e, scan, scan[i]);
    }
    lemma_added_none(scan, names_of(r));
    assert(reconciled(r, scan) =~= r);
}

proof fn lemma_push_unique(s: Seq<Seq<char>>, a: Seq<char>)
    requires
        s.no_duplicates(),
        !s.contains(a),
    ensures
        s.push(a).no_duplicates(),
{
    let t = s.push(a);
    assert forall|i: int, j: int| 0 <= i < t.len() && 0 <= j < t.len() && i != j implies t[i]
        != t[j] by {
        if i < s.len() && j < s.len() {
            assert(t[i] == s[i] && t[j] == s[j]);
        } else if i < s.len() {
            assert(t[i] == s[i]);
        } else {
            assert(t[j] == s[j]);
        }
    }
}

proof fn lemma_prefix_unique(s: Seq<Seq<char>>)
    requires
        s.len() > 0,
        s.no_duplicates(),
    ensures
        s.drop_last().no_duplicates(),
        !s.drop_last().contains(s.last()),
{
    let p = s.drop_last();
    assert forall|i: int, j: int| 0 <= i < p.len() && 0 <= j < p.len() && i != j implies p[i]
        != p[j] by {
        assert(p[i] == s[i] && p[j] == s[j]);
    }
    if p.contains(s.last()) {
        let i = choose|i: int| 0 <= i < p.len() && p[i] == s.last();
        assert(s[i] == s[s.len() - 1]);
    }
}

proof fn lemma_kept_unique(e: Seq<(Seq<char>, usize)>, scan: Seq<Seq<char>>)
    requires
        names_of(e).no_duplicates(),
    ensures
        names_of(kept(e, scan)).no_duplicates(),
    decreases e.len(),
{
    if e.len() > 0 {
        let p = e.drop_last();
        assert(e == p.push(e.last()));
        lemma_names_push(p, e.last());
        lemma_prefix_unique(names_of(e));
        assert(names_of(e).drop_last() == names_of(p));
        lemma_kept_unique(p, scan);
        if scan.contains(e.last().0) {
            lemma_kept_names(p, scan, e.last().0);
            lemma_names_push(kept(p, scan), e.last());
            lemma_push_unique(names_of(kept(p, scan)), e.last().0);
        }
    } else {
        assert(names_of(kept(e, scan)).len() == 0);
    }
}

proof fn lemma_added_unique(scan: Seq<Seq<char>>, known: Seq<Seq<char>>)
    requires
        scan.no_duplicates(),
    ensures
        names_of(added(scan, known)).no_duplicates(),
    decreases scan.len(),
{
    if scan.len() > 0 {
        let p = scan.drop_last();
        lemma_prefix_unique(scan);
        lemma_added_unique(p, known);
        if !known.contains(scan.last()) {
            lemma_added_names(p, known, scan.last());
            lemma_names_push(added(p, known), (scan.last(), 0usize));
            lemma_push_unique(names_of(added(p, known)), scan.last());
        }
    } else {
        assert(names_of(added(scan, known)).len() == 0);
    }
}

/// Names stay unique: when the entries and the scan each name every image
/// once, so does the reconciled collection.
pub proof fn lemma_reconcile_unique(e: Seq<(Seq<char>, usize)>, scan: Seq<Seq<char>>)
    requires
        names_of(e).no_duplicates(),
        scan.no_duplicates(),
    ensures
        names_of(reconciled(e, scan)).no_duplicates(),
{
    let a = names_of(kept(e, scan));
    let b = names_of(added(scan, names_of(e)));
    lemma_kept_unique(e, scan);
    lemma_added_unique(scan, names_of(e));
    lemma_names_concat(kept(e, scan), added(scan, names_of(e)));
    let t = a + b;
    assert forall|i: int, j: int| 0 <= i < t.len() && 0 <= j < t.len() && i != j implies t[i]
        != t[j] by {
        if i < a.len() && j < a.len() {
            assert(t[i] == a[i] && t[j] == a[j]);
        } else if i >= a.len() && j >= a.len() {
            assert(t[i] == b[i - a.len()] && t[j] == b[j - a.len()]);
        } else {
            let (x, y) = if i < a.len() {
                (i, j)
            } else {
                (j, i)
            };
            assert(t[x] == a[x] && t[y] == b[y - a.len()]);
            lemma_kept_names(e, scan, a[x]);
            lemma_added_names(scan, names_of(e), b[y - a.len()]);
            assert(a.contains(a[x]));
            assert(b.contains(b[y - a.len()]));
        }
    }
}

fn contains_name(names: &Vec<String>, n: &String) -> (r: bool)
    ensures
        r == views(names@).contains(n@),
{
    let mut j: usize = 0;
    while j < names.len()
        invariant
            j <= names@.len(),
            forall|k: int| 0 <= k < j ==> names@[k]@ != n@,
        decreases names@.len() - j,
    {
        if names[j].eq(n) {
            assert(views(names@)[j as int] == n@);
            return true;
        }
        j = j + 1;
    }
    assert forall|k: int| 0 <= k < views(names@).len() implies views(names@)[k] != n@ by {
        assert(views(names@)[k] == names@[k]@);
    }
    false
}

fn tracks_name(wallpapers: &Vec<Wallpaper>, n: &String) -> (r: bool)
    ensures
        r == names_of(entries(wallpapers@)).contains(n@),
{
    let ghost ns = names_of(entries(wallpapers@));
    let mut j: usize = 0;
    while j < wallpapers.len()
        invariant
            j <= wallpapers@.len(),
            ns == names_of(entries(wallpapers@)),
            forall|k: int| 0 <= k < j ==> wallpapers@[k].file_name@ != n@,
        decreases wallpapers@.len() - j,
    {
        if wallpapers[j].file_name.eq(n) {
            assert(ns[j as int] == n@);
            return true;
        }
        j = j + 1;
    }
    assert forall|k: int| 0 <= k < ns.len() implies ns[k] != n@ by {
        assert(ns[k] == wallpapers@[k].file_name@);
    }
    false
}

/// Reconciles the collection of entries with the names that a fresh scan found:
/// entries whose name is gone are dropped, the others are kept with their
/// counts and order, and each newly found name is appended with count zero.
pub fn sync_wallpapers(wallpapers_names: &Vec<String>, wallpapers: Vec<Wallpaper>) -> (r: Vec<
    Wallpaper,
>)
    ensures
        entries(r@) == reconciled(entries(wallpapers@), views(wallpapers_names@)),
{
    let ghost scan = views(wallpapers_names@);
    let ghost old_e = entries(wallpapers@);
    let mut out: Vec<Wallpaper> = Vec::new();
    let mut i: usize = 0;
    while i < wallpapers.len()
        invariant
            i <= wallpapers@.len(),
            old_e == entries(wallpapers@),
            scan == views(wallpapers_names@),
            entries(out@) == kept(old_e.take(i as int), scan),
        decreases wallpapers@.len() - i,
    {
        assert(old_e.take(i as int + 1).drop_last() == old_e.take(i as int));
        assert(old_e.take(i as int + 1).last() == wallpapers@[i as int]@);
        if contains_name(wallpapers_names, &wallpapers[i].file_name) {
            let w = Wallpaper { file_name: wallpapers[i].file_name.clone(), count: wallpapers[i].count };
            let ghost before = out@;
            out.push(w);
            assert(entries(out@) =~= entries(before).push(w@));
        }
        i = i + 1;
    }
    assert(old_e.take(i as int) == old_e);
    let ghost kept_e = entries(out@);
    let mut j: usize = 0;
    while j < wallpapers_names.len()
        invariant
            j <= wallpapers_names@.len(),
            old_e == entries(wallpapers@),
            scan == views(wallpapers_names@),
            kept_e == kept(old_e, scan),
            entries(out@) == kept_e + added(scan.take(j as int), names_of(old_e)),
        decreases wallpapers_names@.len() - j,
    {
        assert(scan.take(j as int + 1).drop_last() == scan.take(j as int));
        assert(scan.take(j as int + 1).last() == wallpapers_names@[j as int]@);
        if !tracks_name(&wallpapers, &wallpapers_names[j]) {
            let w = Wallpaper::new(wallpapers_names[j].clone());
            let ghost before = out@;
            out.push(w);
            assert(entries(out@) =~= entries(before).push(w@));
        }
        j = j + 1;
    }
    assert(scan.take(j as int) == scan);
    out
}

} // verus!
