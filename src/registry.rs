//! The keyed collection of contract records that the artifact adapters build.
use vstd::prelude::*;
use crate::contract::{Contract, ContractView, kind_of};

verus! {

/// No two records share a name.
pub open spec fn names_unique(s: Seq<ContractView>) -> bool {
    forall|i: int, j: int|
        0 <= i < s.len() && 0 <= j < s.len() && i != j ==> s[i].name != s[j].name
}

/// Every record's kind is the one its creation bytecode implies.
pub open spec fn all_classified(s: Seq<ContractView>) -> bool {
    forall|i: int| 0 <= i < s.len() ==> #[trigger] s[i].kind == kind_of(s[i].bytecode)
}

pub open spec fn has_name(s: Seq<ContractView>, name: Seq<char>) -> bool {
    exists|i: int| 0 <= i < s.len() && #[trigger] s[i].name == name
}

pub open spec fn position_of(s: Seq<ContractView>, name: Seq<char>) -> int {
    choose|i: int| 0 <= i < s.len() && #[trigger] s[i].name == name
}

/// Inserting a record: it replaces the record of the same name in place, or is appended.
pub open spec fn upsert(s: Seq<ContractView>, c: ContractView) -> Seq<ContractView> {
    if has_name(s, c.name) {
        s.update(position_of(s, c.name), c)
    } else {
        s.push(c)
    }
}

/// Inserting records one after another, in order.
pub open spec fn upsert_all(s: Seq<ContractView>, recs: Seq<ContractView>) -> Seq<ContractView>
    decreases recs.len(),
{
    if recs.len() == 0 {
        s
    } else {
        upsert(upsert_all(s, recs.drop_last()), recs.last())
    }
}

/// A record with more imports attached after those it already has.
pub open spec fn with_imports(c: ContractView, extra: Seq<ContractView>) -> ContractView {
    ContractView {
        imports: Some(
            match c.imports {
                Some(prior) => prior + extra,
                None => extra,
            },
        ),
        ..c
    }
}

/// The registry as a map from names to records.
pub open spec fn as_map(s: Seq<ContractView>) -> Map<Seq<char>, ContractView> {
    Map::new(|n: Seq<char>| has_name(s, n), |n: Seq<char>| s[position_of(s, n)])
}

/// In a registry with unique names, the record at a matching position is the one found by name.
pub proof fn lemma_position_unique(s: Seq<ContractView>, i: int)
    requires
        names_unique(s),
        0 <= i < s.len(),
    ensures
        has_name(s, s[i].name),
        position_of(s, s[i].name) == i,
{
    assert(s[i].name == s[i].name);
}

/// Inserting keeps names unique and every record classified.
pub proof fn lemma_upsert_wf(s: Seq<ContractView>, c: ContractView)
    requires
        names_unique(s),
        all_classified(s),
        c.kind == kind_of(c.bytecode),
    ensures
        names_unique(upsert(s, c)),
        all_classified(upsert(s, c)),
{
    let r = upsert(s, c);
    if has_name(s, c.name) {
        let p = position_of(s, c.name);
        assert forall|i: int, j: int|
            0 <= i < r.len() && 0 <= j < r.len() && i != j implies r[i].name != r[j].name by {
            if i == p {
                assert(s[p].name == c.name);
            } else if j == p {
                assert(s[p].name == c.name);
            }
        }
    } else {
        assert forall|i: int, j: int|
            0 <= i < r.len() && 0 <= j < r.len() && i != j implies r[i].name != r[j].name by {
            if i == s.len() {
                assert(s[j].name != c.name);
            } else if j == s.len() {
                assert(s[i].name != c.name);
            }
        }
    }
    assert forall|i: int| 0 <= i < r.len() implies #[trigger] r[i].kind == kind_of(r[i].bytecode) by {
        if i < s.len() && r[i] == s[i] {
        }
    }
}

/// The views of a list of names.
pub open spec fn names_view(names: Seq<String>) -> Seq<Seq<char>> {
    names.map_values(|n: String| n@)
}

/// The records that an import list resolves to, in the list's order: each name
/// found in the snapshot, except the importer's own name. Names not found are dropped.
pub open spec fn resolve_names(
    names: Seq<Seq<char>>,
    own: Seq<char>,
    snap: Seq<ContractView>,
) -> Seq<ContractView>
    decreases names.len(),
{
    if names.len() == 0 {
        Seq::empty()
    } else {
        let found = resolve_names(names.drop_last(), own, snap);
        let name = names.last();
        if name != own && has_name(snap, name) {
            found.push(snap[position_of(snap, name)])
        } else {
            found
        }
    }
}

/// One artifact's share of the resolution pass: the record named `own`, if
/// registered, gets the records its imports resolve to.
pub open spec fn resolve_one(
    s: Seq<ContractView>,
    own: Seq<char>,
    names: Seq<Seq<char>>,
    snap: Seq<ContractView>,
) -> Seq<ContractView> {
    if has_name(s, own) {
        let p = position_of(s, own);
        s.update(p, with_imports(s[p], resolve_names(names, own, snap)))
    } else {
        s
    }
}

/// The import links of one artifact: the name of the record it describes and
/// the names it imports, in order.
pub struct ImportLinks {
    pub own: Seq<char>,
    pub names: Seq<Seq<char>>,
}

/// The resolution pass over the artifacts' import links, in order.
pub open spec fn resolve_all(
    s: Seq<ContractView>,
    links: Seq<ImportLinks>,
    snap: Seq<ContractView>,
) -> Seq<ContractView>
    decreases links.len(),
{
    if links.len() == 0 {
        s
    } else {
        let l = links.last();
        resolve_one(resolve_all(s, links.drop_last(), snap), l.own, l.names, snap)
    }
}

/// Inserting two runs of records is inserting their concatenation.
pub proof fn lemma_upsert_all_concat(s: Seq<ContractView>, a: Seq<ContractView>, b: Seq<ContractView>)
    ensures
        upsert_all(s, a + b) == upsert_all(upsert_all(s, a), b),
    decreases b.len(),
{
    if b.len() == 0 {
        assert(a + b =~= a);
    } else {
        lemma_upsert_all_concat(s, a, b.drop_last());
        assert((a + b).drop_last() =~= a + b.drop_last());
    }
}

/// The registry that both passes produce: the records inserted in order, then
/// the import links resolved against a snapshot of that result.
pub open spec fn two_pass(recs: Seq<ContractView>, links: Seq<ImportLinks>) -> Seq<ContractView> {
    let populated = upsert_all(Seq::empty(), recs);
    resolve_all(populated, links, populated)
}

/// Two sequences hold the same elements.
pub open spec fn same_members<A>(a: Seq<A>, b: Seq<A>) -> bool {
    forall|x: A| a.contains(x) <==> b.contains(x)
}

/// No two import links describe the same record.
pub open spec fn owners_unique(links: Seq<ImportLinks>) -> bool {
    forall|i: int, j: int|
        0 <= i < links.len() && 0 <= j < links.len() && i != j ==> links[i].own != links[j].own
}

pub open spec fn has_links(links: Seq<ImportLinks>, name: Seq<char>) -> bool {
    exists|k: int| 0 <= k < links.len() && #[trigger] links[k].own == name
}

pub open spec fn links_of(links: Seq<ImportLinks>, name: Seq<char>) -> ImportLinks {
    links[choose|k: int| 0 <= k < links.len() && #[trigger] links[k].own == name]
}

/// What the resolution pass makes of one record when no two links share an owner.
pub open spec fn resolved_entry(
    c: ContractView,
    links: Seq<ImportLinks>,
    snap: Seq<ContractView>,
) -> ContractView {
    if has_links(links, c.name) {
        with_imports(c, resolve_names(links_of(links, c.name).names, c.name, snap))
    } else {
        c
    }
}

/// Records with pairwise distinct names are inserted without replacing one another.
pub proof fn lemma_upsert_all_distinct(recs: Seq<ContractView>)
    requires
        names_unique(recs),
    ensures
        upsert_all(Seq::empty(), recs) == recs,
    decreases recs.len(),
{
    if recs.len() > 0 {
        let prior = recs.drop_last();
        let last = recs.last();
        assert(names_unique(prior)) by {
            assert forall|i: int, j: int|
                0 <= i < prior.len() && 0 <= j < prior.len() && i != j implies prior[i].name
                != prior[j].name by {
                assert(prior[i] == recs[i] && prior[j] == recs[j]);
            }
        }
        lemma_upsert_all_distinct(prior);
        if has_name(prior, last.name) {
            let i = choose|i: int| 0 <= i < prior.len() && #[trigger] prior[i].name == last.name;
            assert(recs[i].name == recs[recs.len() - 1].name);
        }
        assert(prior.push(last) =~= recs);
    }
}

/// The map of a registry with unique names depends only on which records it holds.
pub proof fn lemma_as_map_members(a: Seq<ContractView>, b: Seq<ContractView>)
    requires
        names_unique(a),
        names_unique(b),
        same_members(a, b),
    ensures
        as_map(a) == as_map(b),
{
    assert forall|n: Seq<char>| has_name(a, n) implies has_name(b, n) && a[position_of(a, n)]
        == b[position_of(b, n)] by {
        let i = position_of(a, n);
        assert(a.contains(a[i]));
        let j = choose|j: int| 0 <= j < b.len() && b[j] == a[i];
        lemma_position_unique(b, j);
    }
    assert forall|n: Seq<char>| has_name(b, n) implies has_name(a, n) by {
        let j = position_of(b, n);
        assert(b.contains(b[j]));
        let i = choose|i: int| 0 <= i < a.len() && a[i] == b[j];
        assert(a[i].name == n);
    }
    assert(as_map(a) =~= as_map(b));
}

/// Import resolution reads the snapshot only through its map.
pub proof fn lemma_resolve_names_by_map(
    names: Seq<Seq<char>>,
    own: Seq<char>,
    s1: Seq<ContractView>,
    s2: Seq<ContractView>,
)
    requires
        as_map(s1) == as_map(s2),
    ensures
        resolve_names(names, own, s1) == resolve_names(names, own, s2),
    decreases names.len(),
{
    if names.len() > 0 {
        lemma_resolve_names_by_map(names.drop_last(), own, s1, s2);
        let n = names.last();
        assert(as_map(s1).dom().contains(n) == has_name(s1, n));
        assert(as_map(s2).dom().contains(n) == has_name(s2, n));
        if has_name(s1, n) {
            assert(as_map(s1)[n] == s1[position_of(s1, n)]);
            assert(as_map(s2)[n] == s2[position_of(s2, n)]);
        }
    }
}

/// With distinct owners, the resolution pass treats each record on its own.
pub proof fn lemma_resolve_all_pointwise(
    s: Seq<ContractView>,
    links: Seq<ImportLinks>,
    snap: Seq<ContractView>,
)
    requires
        names_unique(s),
        owners_unique(links),
    ensures
        resolve_all(s, links, snap) == s.map_values(
            |c: ContractView| resolved_entry(c, links, snap),
        ),
    decreases links.len(),
{
    let target = s.map_values(|c: ContractView| resolved_entry(c, links, snap));
    if links.len() == 0 {
        assert(resolve_all(s, links, snap) =~= target);
    } else {
        let prior = links.drop_last();
        let l = links.last();
        let last = links.len() - 1;
        assert(owners_unique(prior)) by {
            assert forall|i: int, j: int|
                0 <= i < prior.len() && 0 <= j < prior.len() && i != j implies prior[i].own
                != prior[j].own by {
                assert(prior[i] == links[i] && prior[j] == links[j]);
            }
        }
        lemma_resolve_all_pointwise(s, prior, snap);
        let r = resolve_all(s, prior, snap);
        assert(r.len() == s.len());
        assert forall|i: int| 0 <= i < s.len() implies #[trigger] r[i].name == s[i].name by {
            if has_links(prior, s[i].name) {
            }
        }
        assert forall|i: int| 0 <= i < s.len() && s[i].name != l.own implies #[trigger] target[i]
            == r[i] by {
            if has_links(links, s[i].name) {
                let k = choose|k: int| 0 <= k < links.len() && #[trigger] links[k].own == s[i].name;
                assert(k != last);
                assert(prior[k].own == s[i].name);
                let k2 = choose|k: int| 0 <= k < prior.len() && #[trigger] prior[k].own == s[i].name;
                assert(links[k2].own == s[i].name);
                assert(k == k2);
            } else {
                if has_links(prior, s[i].name) {
                    let k = choose|k: int| 0 <= k < prior.len() && #[trigger] prior[k].own == s[i].name;
                    assert(links[k].own == s[i].name);
                }
            }
        }
        if has_name(r, l.own) {
            let p = position_of(r, l.own);
            assert(s[p].name == l.own);
            if has_links(prior, l.own) {
                let k = choose|k: int| 0 <= k < prior.len() && #[trigger] prior[k].own == l.own;
                assert(links[k].own == links[last].own);
            }
            assert(r[p] == s[p]);
            assert(links[last].own == s[p].name);
            let k = choose|k: int| 0 <= k < links.len() && #[trigger] links[k].own == s[p].name;
            assert(k == last);
            assert forall|i: int| 0 <= i < s.len() && i != p implies s[i].name != l.own by {
                assert(s[i].name != s[p].name);
            }
            assert(resolve_all(s, links, snap) =~= target);
        } else {
            assert forall|i: int| 0 <= i < s.len() implies s[i].name != l.own by {
                assert(r[i].name == s[i].name);
            }
            assert(resolve_all(s, links, snap) =~= target);
        }
    }
}

/// What the resolution pass makes of a record depends only on which links
/// there are and on the snapshot's map.
pub proof fn lemma_resolved_entry_members(
    c: ContractView,
    l1: Seq<ImportLinks>,
    l2: Seq<ImportLinks>,
    s1: Seq<ContractView>,
    s2: Seq<ContractView>,
)
    requires
        owners_unique(l1),
        owners_unique(l2),
        same_members(l1, l2),
        as_map(s1) == as_map(s2),
    ensures
        resolved_entry(c, l1, s1) == resolved_entry(c, l2, s2),
{
    let n = c.name;
    if has_links(l1, n) {
        let k1 = choose|k: int| 0 <= k < l1.len() && #[trigger] l1[k].own == n;
        assert(l1.contains(l1[k1]));
        let j = choose|j: int| 0 <= j < l2.len() && l2[j] == l1[k1];
        assert(l2[j].own == n);
        let k2 = choose|k: int| 0 <= k < l2.len() && #[trigger] l2[k].own == n;
        assert(j == k2);
        lemma_resolve_names_by_map(l1[k1].names, n, s1, s2);
    } else if has_links(l2, n) {
        let k2 = choose|k: int| 0 <= k < l2.len() && #[trigger] l2[k].own == n;
        assert(l2.contains(l2[k2]));
        let j = choose|j: int| 0 <= j < l1.len() && l1[j] == l2[k2];
        assert(l1[j].own == n);
    }
}

/// The map that both passes produce depends only on which records and which
/// import links there are, not on their order, when names and owners are distinct.
pub proof fn lemma_two_pass_members(
    r1: Seq<ContractView>,
    r2: Seq<ContractView>,
    l1: Seq<ImportLinks>,
    l2: Seq<ImportLinks>,
)
    requires
        names_unique(r1),
        names_unique(r2),
        same_members(r1, r2),
        owners_unique(l1),
        owners_unique(l2),
        same_members(l1, l2),
    ensures
        as_map(two_pass(r1, l1)) == as_map(two_pass(r2, l2)),
{
    lemma_upsert_all_distinct(r1);
    lemma_upsert_all_distinct(r2);
    lemma_as_map_members(r1, r2);
    lemma_resolve_all_pointwise(r1, l1, r1);
    lemma_resolve_all_pointwise(r2, l2, r2);
    let f1 = |c: ContractView| resolved_entry(c, l1, r1);
    let f2 = |c: ContractView| resolved_entry(c, l2, r2);
    let o1 = r1.map_values(f1);
    let o2 = r2.map_values(f2);
    assert forall|c: ContractView| #[trigger] f1(c) == f2(c) by {
        lemma_resolved_entry_members(c, l1, l2, r1, r2);
    }
    assert forall|i: int| 0 <= i < o1.len() implies #[trigger] o1[i].name == r1[i].name by {
        if has_links(l1, r1[i].name) {
        }
    }
    assert forall|i: int| 0 <= i < o2.len() implies #[trigger] o2[i].name == r2[i].name by {
        if has_links(l2, r2[i].name) {
        }
    }
    assert forall|x: ContractView| o1.contains(x) implies o2.contains(x) by {
        let i = choose|i: int| 0 <= i < o1.len() && o1[i] == x;
        assert(r1.contains(r1[i]));
        let j = choose|j: int| 0 <= j < r2.len() && r2[j] == r1[i];
        assert(o2[j] == x);
    }
    assert forall|x: ContractView| o2.contains(x) implies o1.contains(x) by {
        let j = choose|j: int| 0 <= j < o2.len() && o2[j] == x;
        assert(r2.contains(r2[j]));
        let i = choose|i: int| 0 <= i < r1.len() && r1[i] == r2[j];
        assert(o1[i] == x);
    }
    assert(names_unique(o1)) by {
        assert forall|i: int, j: int|
            0 <= i < o1.len() && 0 <= j < o1.len() && i != j implies o1[i].name != o1[j].name by {
            assert(o1[i].name == r1[i].name && o1[j].name == r1[j].name);
        }
    }
    assert(names_unique(o2)) by {
        assert forall|i: int, j: int|
            0 <= i < o2.len() && 0 <= j < o2.len() && i != j implies o2[i].name != o2[j].name by {
            assert(o2[i].name == r2[i].name && o2[j].name == r2[j].name);
        }
    }
    lemma_as_map_members(o1, o2);
}

/// No record holds a record of its own name among its imports.
pub open spec fn no_self_import(s: Seq<ContractView>) -> bool {
    forall|i: int, j: int|
        0 <= i < s.len() && s[i].imports is Some && 0 <= j < s[i].imports.unwrap().len()
            ==> #[trigger] s[i].imports.unwrap()[j].name != s[i].name
}

/// No record has an import list yet.
pub open spec fn unresolved(s: Seq<ContractView>) -> bool {
    forall|i: int| 0 <= i < s.len() ==> #[trigger] s[i].imports is None
}

/// Resolving the imports of the record named `own` changes no other record,
/// and of that record only its import list; the snapshot is only read.
pub proof fn lemma_resolution_is_local(
    s: Seq<ContractView>,
    own: Seq<char>,
    names: Seq<Seq<char>>,
    snap: Seq<ContractView>,
)
    requires
        names_unique(s),
    ensures
        resolve_one(s, own, names, snap).len() == s.len(),
        forall|i: int|
            0 <= i < s.len() && s[i].name != own ==> #[trigger] resolve_one(s, own, names, snap)[i]
                == s[i],
        forall|i: int|
            0 <= i < s.len() && s[i].name == own ==> #[trigger] resolve_one(s, own, names, snap)[i]
                == with_imports(s[i], resolve_names(names, own, snap)),
{
    assert forall|i: int| 0 <= i < s.len() && s[i].name == own implies position_of(s, own) == i by {
        lemma_position_unique(s, i);
    }
}

/// The records an import list resolves to never include the importer itself,
/// even when the list names it.
pub proof fn lemma_no_self_import(names: Seq<Seq<char>>, own: Seq<char>, snap: Seq<ContractView>)
    ensures
        forall|j: int|
            0 <= j < resolve_names(names, own, snap).len() ==> #[trigger] resolve_names(
                names,
                own,
                snap,
            )[j].name != own,
    decreases names.len(),
{
    if names.len() > 0 {
        lemma_no_self_import(names.drop_last(), own, snap);
        let n = names.last();
        if n != own && has_name(snap, n) {
            assert(snap[position_of(snap, n)].name == n);
        }
    }
}

/// An import that names no record of the snapshot is left out: the rest of
/// the list resolves exactly as if it were not there.
pub proof fn lemma_unresolvable_dropped(
    before: Seq<Seq<char>>,
    missing: Seq<char>,
    after: Seq<Seq<char>>,
    own: Seq<char>,
    snap: Seq<ContractView>,
)
    requires
        !has_name(snap, missing),
    ensures
        resolve_names(before + seq![missing] + after, own, snap) == resolve_names(
            before + after,
            own,
            snap,
        ),
    decreases after.len(),
{
    if after.len() == 0 {
        assert((before + seq![missing] + after).drop_last() =~= before);
        assert(before + after =~= before);
    } else {
        lemma_unresolvable_dropped(before, missing, after.drop_last(), own, snap);
        assert((before + seq![missing] + after).drop_last() =~= before + seq![missing]
            + after.drop_last());
        assert((before + after).drop_last() =~= before + after.drop_last());
    }
}

/// Inserting classified records keeps every record classified and keeps
/// import lists absent.
proof fn lemma_upsert_all_keeps(s: Seq<ContractView>, recs: Seq<ContractView>)
    requires
        all_classified(s),
        all_classified(recs),
        unresolved(s),
        unresolved(recs),
    ensures
        all_classified(upsert_all(s, recs)),
        unresolved(upsert_all(s, recs)),
    decreases recs.len(),
{
    if recs.len() > 0 {
        let prior = recs.drop_last();
        assert(all_classified(prior)) by {
            assert forall|i: int| 0 <= i < prior.len() implies #[trigger] prior[i].kind == kind_of(
                prior[i].bytecode,
            ) by {
                assert(prior[i] == recs[i]);
            }
        }
        assert(unresolved(prior)) by {
            assert forall|i: int| 0 <= i < prior.len() implies #[trigger] prior[i].imports is None by {
                assert(prior[i] == recs[i]);
            }
        }
        lemma_upsert_all_keeps(s, prior);
        let u = upsert_all(s, prior);
        let c = recs.last();
        assert(c == recs[recs.len() - 1]);
        let r = upsert(u, c);
        assert forall|i: int| 0 <= i < r.len() implies #[trigger] r[i].kind == kind_of(r[i].bytecode)
            && r[i].imports is None by {
            if i < u.len() && r[i] == u[i] {
            }
        }
    }
}

/// The resolution pass keeps names, kinds and bytecode, and puts no record
/// among its own imports.
proof fn lemma_resolve_all_keeps(
    s: Seq<ContractView>,
    links: Seq<ImportLinks>,
    snap: Seq<ContractView>,
)
    requires
        all_classified(s),
        no_self_import(s),
    ensures
        all_classified(resolve_all(s, links, snap)),
        no_self_import(resolve_all(s, links, snap)),
        resolve_all(s, links, snap).len() == s.len(),
    decreases links.len(),
{
    if links.len() > 0 {
        lemma_resolve_all_keeps(s, links.drop_last(), snap);
        let r = resolve_all(s, links.drop_last(), snap);
        let l = links.last();
        if has_name(r, l.own) {
            let p = position_of(r, l.own);
            let found = resolve_names(l.names, l.own, snap);
            lemma_no_self_import(l.names, l.own, snap);
            let out = resolve_one(r, l.own, l.names, snap);
            assert forall|i: int| 0 <= i < out.len() implies #[trigger] out[i].kind == kind_of(
                out[i].bytecode,
            ) by {
                if i != p {
                    assert(out[i] == r[i]);
                }
            }
            assert forall|i: int, j: int|
                0 <= i < out.len() && out[i].imports is Some && 0 <= j < out[i].imports.unwrap().len()
                    implies #[trigger] out[i].imports.unwrap()[j].name != out[i].name by {
                if i != p {
                    assert(out[i] == r[i]);
                } else {
                    match r[p].imports {
                        Some(prior) => {
                            if j < prior.len() {
                                assert(r[p].imports.unwrap()[j].name != r[p].name);
                            } else {
                                assert(out[p].imports.unwrap()[j] == found[j - prior.len()]);
                            }
                        },
                        None => {
                            assert(out[p].imports.unwrap()[j] == found[j]);
                        },
                    }
                }
            }
        }
    }
}

/// Both passes leave every record classified by its bytecode, and no record
/// among its own imports.
pub proof fn lemma_two_pass_sound(recs: Seq<ContractView>, links: Seq<ImportLinks>)
    requires
        all_classified(recs),
        unresolved(recs),
    ensures
        all_classified(two_pass(recs, links)),
        no_self_import(two_pass(recs, links)),
{
    lemma_upsert_all_keeps(Seq::empty(), recs);
    let p = upsert_all(Seq::empty(), recs);
    assert(no_self_import(p));
    lemma_resolve_all_keeps(p, links, p);
}

/// A permutation holds the same members.
pub proof fn lemma_permutation_members<A>(a: Seq<A>, b: Seq<A>)
    requires
        a.to_multiset() == b.to_multiset(),
    ensures
        same_members(a, b),
{
    a.to_multiset_ensures();
    b.to_multiset_ensures();
    assert forall|x: A| a.contains(x) <==> b.contains(x) by {
        assert(a.contains(x) <==> a.to_multiset().count(x) > 0);
        assert(b.contains(x) <==> b.to_multiset().count(x) > 0);
    }
}

/// Mapping two sequences with the same members gives sequences with the same members.
pub proof fn lemma_map_members<A, B>(a: Seq<A>, b: Seq<A>, f: spec_fn(A) -> B)
    requires
        same_members(a, b),
    ensures
        same_members(a.map_values(f), b.map_values(f)),
{
    assert forall|y: B| a.map_values(f).contains(y) implies b.map_values(f).contains(y) by {
        let i = choose|i: int| 0 <= i < a.len() && a.map_values(f)[i] == y;
        assert(a.contains(a[i]));
        let j = choose|j: int| 0 <= j < b.len() && b[j] == a[i];
        assert(b.map_values(f)[j] == y);
    }
    assert forall|y: B| b.map_values(f).contains(y) implies a.map_values(f).contains(y) by {
        let j = choose|j: int| 0 <= j < b.len() && b.map_values(f)[j] == y;
        assert(b.contains(b[j]));
        let i = choose|i: int| 0 <= i < a.len() && a[i] == b[j];
        assert(a.map_values(f)[i] == y);
    }
}

/// The keyed collection of records. Names are unique and each record's kind
/// agrees with its creation bytecode.
pub struct ContractRegistry {
    entries: Vec<Contract>,
}

impl View for ContractRegistry {
    type V = Seq<ContractView>;

    closed spec fn view(&self) -> Seq<ContractView> {
        self.entries@.map_values(|c: Contract| c@)
    }
}

impl ContractRegistry {
    pub open spec fn wf(&self) -> bool {
        names_unique(self@) && all_classified(self@)
    }

    /// An empty registry.
    pub fn new() -> (r: ContractRegistry)
        ensures
            r.wf(),
            r@ == Seq::<ContractView>::empty(),
    {
        let r = ContractRegistry { entries: Vec::new() };
        assert(r@ =~= Seq::<ContractView>::empty());
        r
    }

    pub fn len(&self) -> (n: usize)
        ensures
            n == self@.len(),
    {
        self.entries.len()
    }

    /// The record at position `i`.
    pub fn get(&self, i: usize) -> (c: &Contract)
        requires
            i < self@.len(),
        ensures
            c@ == self@[i as int],
    {
        &self.entries[i]
    }

    /// The position of the record named `name`.
    pub fn position(&self, name: &String) -> (r: Option<usize>)
        ensures
            match r {
                Some(i) => i < self@.len() && self@[i as int].name == name@,
                None => !has_name(self@, name@),
            },
    {
        let mut i: usize = 0;
        while i < self.entries.len()
            invariant
                i <= self@.len(),
                self@.len() == self.entries@.len(),
                forall|j: int| 0 <= j < i ==> self@[j].name != name@,
            decreases self.entries@.len() - i,
        {
            if self.entries[i].contract_name == *name {
                return Some(i);
            }
            i += 1;
        }
        None
    }

    /// Inserts a record; one that has the same name is replaced (last write wins).
    pub fn insert(&mut self, record: Contract)
        requires
            old(self).wf(),
            record@.kind == kind_of(record@.bytecode),
        ensures
            final(self).wf(),
            final(self)@ == upsert(old(self)@, record@),
    {
        proof {
            lemma_upsert_wf(self@, record@);
        }
        let ghost before = self@;
        match self.position(&record.contract_name) {
            Some(i) => {
                proof {
                    lemma_position_unique(before, i as int);
                }
                self.entries.set(i, record);
            },
            None => {
                self.entries.push(record);
            },
        }
        assert(self@ =~= upsert(before, record@));
    }

    /// Attaches imports to the record at position `i`, after any it already has.
    pub fn attach_imports(&mut self, i: usize, extra: Vec<Contract>)
        requires
            old(self).wf(),
            i < old(self)@.len(),
        ensures
            final(self).wf(),
            final(self)@ == old(self)@.update(
                i as int,
                with_imports(old(self)@[i as int], extra@.map_values(|c: Contract| c@)),
            ),
    {
        let ghost before = self@;
        let ghost extra_view = extra@.map_values(|c: Contract| c@);
        let mut extra = extra;
        let entry = &mut self.entries[i];
        let mut list = match entry.imports.take() {
            Some(prior) => prior,
            None => Vec::new(),
        };
        let ghost prior_list = list@;
        list.append(&mut extra);
        entry.imports = Some(list);
        proof {
            let updated = with_imports(before[i as int], extra_view);
            assert(self@[i as int].imports.unwrap() =~= updated.imports.unwrap());
            assert(self@ =~= before.update(i as int, updated));
        }
    }

    /// Copies of the records that `names` resolve to in this registry, for the
    /// importer named `own`.
    pub fn resolve_names(&self, names: &Vec<String>, own: &String) -> (found: Vec<Contract>)
        requires
            self.wf(),
        ensures
            found@.map_values(|c: Contract| c@) == resolve_names(names_view(names@), own@, self@),
    {
        let ghost all = names_view(names@);
        let mut found: Vec<Contract> = Vec::new();
        let mut i: usize = 0;
        while i < names.len()
            invariant
                self.wf(),
                i <= names@.len(),
                all == names_view(names@),
                found@.map_values(|c: Contract| c@) == resolve_names(all.take(i as int), own@, self@),
            decreases names@.len() - i,
        {
            let ghost prefix = all.take(i as int);
            assert(all.take(i + 1).drop_last() =~= prefix);
            let name = &names[i];
            if *name != *own {
                match self.position(name) {
                    Some(p) => {
                        proof {
                            lemma_position_unique(self@, p as int);
                        }
                        found.push(self.entries[p].duplicate());
                    },
                    None => {},
                }
            }
            proof {
                assert(found@.map_values(|c: Contract| c@) =~= resolve_names(
                    all.take(i + 1),
                    own@,
                    self@,
                ));
            }
            i += 1;
        }
        assert(all.take(names@.len() as int) =~= all);
        found
    }

    /// The resolution step of one artifact: the record named `own`, if present,
    /// gets copies of the records in `snapshot` that `names` resolve to.
    pub fn resolve_links(&mut self, own: &String, names: &Vec<String>, snapshot: &ContractRegistry)
        requires
            old(self).wf(),
            snapshot.wf(),
        ensures
            final(self).wf(),
            final(self)@ == resolve_one(old(self)@, own@, names_view(names@), snapshot@),
    {
        match self.position(own) {
            Some(p) => {
                proof {
                    lemma_position_unique(self@, p as int);
                }
                let found = snapshot.resolve_names(names, own);
                self.attach_imports(p, found);
            },
            None => {},
        }
    }

    /// A deep copy, independent of this registry.
    pub fn snapshot(&self) -> (copy: ContractRegistry)
        requires
            self.wf(),
        ensures
            copy.wf(),
            copy@ == self@,
    {
        let mut entries: Vec<Contract> = Vec::new();
        let mut i: usize = 0;
        while i < self.entries.len()
            invariant
                i <= self.entries@.len(),
                entries@.len() == i,
                forall|j: int| 0 <= j < i ==> #[trigger] entries@[j]@ == self.entries@[j]@,
            decreases self.entries@.len() - i,
        {
            entries.push(self.entries[i].duplicate());
            i += 1;
        }
        let copy = ContractRegistry { entries };
        assert(copy@ =~= self@);
        copy
    }

    /// The records, in registry order.
    pub fn into_records(self) -> (records: Vec<Contract>)
        ensures
            records@.map_values(|c: Contract| c@) == self@,
    {
        self.entries
    }
}

} // verus!
