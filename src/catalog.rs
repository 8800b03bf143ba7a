//! Rules over catalog rows: merging the configured libraries into the
//! library table, and gathering what a job contract needs from its rows.
use vstd::prelude::*;
use crate::config::JobConfig;
use crate::dispatch::JobContract;
use crate::path::{FsPath, joined, path_of_text, render};

verus! {

/// A row of the `library` table.
#[derive(Debug, Clone, PartialEq, Eq)]
pub struct LibraryRow {
    /// None for a row not stored yet.
    pub id: Option<i64>,
    pub name: String,
    /// Whether the row comes from the configuration (`source = 'conf'`).
    pub from_config: bool,
    pub path: String,
    pub destination: String,
    pub script_id: i64,
    pub enabled: bool,
}

pub ghost struct LibraryView {
    pub id: Option<i64>,
    pub name: Seq<char>,
    pub from_config: bool,
    pub path: Seq<char>,
    pub destination: Seq<char>,
    pub script_id: i64,
    pub enabled: bool,
}

impl View for LibraryRow {
    type V = LibraryView;

    open spec fn view(&self) -> LibraryView {
        LibraryView {
            id: self.id,
            name: self.name@,
            from_config: self.from_config,
            path: self.path@,
            destination: self.destination@,
            script_id: self.script_id,
            enabled: self.enabled,
        }
    }
}

/// What a library definition contributes to its row.
pub ghost struct LibraryConfigView {
    pub name: Seq<char>,
    pub enabled: bool,
    pub path: Seq<char>,
    pub destination: Seq<char>,
    pub script_id: i64,
}

pub open spec fn table_view(t: Seq<LibraryRow>) -> Seq<LibraryView> {
    Seq::new(t.len(), |i: int| t[i]@)
}

pub open spec fn configs_view(cs: Seq<JobConfig>, script_ids: Seq<i64>) -> Seq<LibraryConfigView> {
    Seq::new(
        cs.len(),
        |i: int|
            LibraryConfigView {
                name: cs[i].name@,
                enabled: cs[i].enabled,
                path: cs[i].source_path@,
                destination: cs[i].destination_path@,
                script_id: script_ids[i],
            },
    )
}

/// Position of the configuration row named `n`, or -1.
pub open spec fn conf_index(t: Seq<LibraryView>, n: Seq<char>) -> int
    decreases t.len(),
{
    if t.len() == 0 {
        -1
    } else if t.last().from_config && t.last().name == n {
        t.len() - 1
    } else {
        conf_index(t.drop_last(), n)
    }
}

/// How many configuration rows are named `n`.
pub open spec fn conf_count(t: Seq<LibraryView>, n: Seq<char>) -> nat
    decreases t.len(),
{
    if t.len() == 0 {
        0
    } else {
        conf_count(t.drop_last(), n) + if t.last().from_config && t.last().name == n {
            1nat
        } else {
            0nat
        }
    }
}

/// No two configuration rows share a name.
pub open spec fn conf_names_unique(t: Seq<LibraryView>) -> bool {
    forall|n: Seq<char>| #[trigger] conf_count(t, n) <= 1
}

/// The row of `c`, updated in place or added.
pub open spec fn upsert(t: Seq<LibraryView>, c: LibraryConfigView) -> Seq<LibraryView> {
    let i = conf_index(t, c.name);
    if i >= 0 {
        t.update(
            i,
            LibraryView {
                path: c.path,
                destination: c.destination,
                enabled: c.enabled,
                script_id: c.script_id,
                ..t[i]
            },
        )
    } else {
        t.push(
            LibraryView {
                id: None,
                name: c.name,
                from_config: true,
                path: c.path,
                destination: c.destination,
                script_id: c.script_id,
                enabled: c.enabled,
            },
        )
    }
}

pub open spec fn upsert_all(t: Seq<LibraryView>, cs: Seq<LibraryConfigView>) -> Seq<LibraryView>
    decreases cs.len(),
{
    if cs.len() == 0 {
        t
    } else {
        upsert(upsert_all(t, cs.drop_last()), cs.last())
    }
}

pub open spec fn configured(cs: Seq<LibraryConfigView>, n: Seq<char>) -> bool {
    exists|i: int| 0 <= i < cs.len() && #[trigger] cs[i].name == n
}

/// Every configuration row whose name is not configured any more, disabled.
pub open spec fn disable_missing(t: Seq<LibraryView>, cs: Seq<LibraryConfigView>) -> Seq<LibraryView> {
    Seq::new(
        t.len(),
        |i: int|
            if t[i].from_config && !configured(cs, t[i].name) {
                LibraryView { enabled: false, ..t[i] }
            } else {
                t[i]
            },
    )
}

/// The library table after a configuration merge.
pub open spec fn merged(t: Seq<LibraryView>, cs: Seq<LibraryConfigView>) -> Seq<LibraryView> {
    disable_missing(upsert_all(t, cs), cs)
}

proof fn lemma_conf_index(t: Seq<LibraryView>, n: Seq<char>)
    ensures
        -1 <= conf_index(t, n) < t.len(),
        conf_index(t, n) >= 0 ==> t[conf_index(t, n)].from_config && t[conf_index(t, n)].name == n,
        conf_index(t, n) < 0 ==> conf_count(t, n) == 0,
    decreases t.len(),
{
    if t.len() > 0 {
        lemma_conf_index(t.drop_last(), n);
    }
}

proof fn lemma_count_update(t: Seq<LibraryView>, i: int, r: LibraryView, n: Seq<char>)
    requires
        0 <= i < t.len(),
        r.name == t[i].name,
        r.from_config == t[i].from_config,
    ensures
        conf_count(t.update(i, r), n) == conf_count(t, n),
    decreases t.len(),
{
    let u = t.update(i, r);
    if i == t.len() - 1 {
        assert(u.drop_last() =~= t.drop_last());
    } else {
        assert(u.drop_last() =~= t.drop_last().update(i, r));
        lemma_count_update(t.drop_last(), i, r, n);
    }
}

proof fn lemma_count_push(t: Seq<LibraryView>, r: LibraryView, n: Seq<char>)
    ensures
        conf_count(t.push(r), n) == conf_count(t, n) + if r.from_config && r.name == n {
            1nat
        } else {
            0nat
        },
{
    assert(t.push(r).drop_last() =~= t);
}

proof fn lemma_upsert(t: Seq<LibraryView>, c: LibraryConfigView)
    requires
        conf_names_unique(t),
    ensures
        conf_names_unique(upsert(t, c)),
        conf_count(upsert(t, c), c.name) == 1,
        forall|n: Seq<char>| #[trigger] conf_count(upsert(t, c), n) >= conf_count(t, n),
        upsert(t, c)[conf_index(upsert(t, c), c.name)].enabled == c.enabled,
        upsert(t, c).len() >= t.len(),
        forall|k: int|
            0 <= k < t.len() ==> (#[trigger] upsert(t, c)[k]).name == t[k].name
                && upsert(t, c)[k].from_config == t[k].from_config,
        forall|k: int|
            t.len() <= k < upsert(t, c).len() ==> (#[trigger] upsert(t, c)[k]).from_config
                && upsert(t, c)[k].name == c.name,
{
    let i = conf_index(t, c.name);
    let u = upsert(t, c);
    lemma_conf_index(t, c.name);
    if i >= 0 {
        let r = u[i];
        assert forall|n: Seq<char>| #[trigger] conf_count(u, n) == conf_count(t, n) by {
            lemma_count_update(t, i, r, n);
        }
        assert(conf_count(t, c.name) >= 1) by {
            lemma_count_positive(t, i);
        }
        lemma_conf_index(u, c.name);
        lemma_index_unique(u, conf_index(u, c.name), i);
    } else {
        let r = u.last();
        assert forall|n: Seq<char>| #[trigger] conf_count(u, n) == conf_count(t, n) + if r.from_config
            && r.name == n {
            1nat
        } else {
            0nat
        } by {
            lemma_count_push(t, r, n);
        }
        assert(conf_index(u, c.name) == u.len() - 1);
    }
}

proof fn lemma_count_positive(t: Seq<LibraryView>, i: int)
    requires
        0 <= i < t.len(),
        t[i].from_config,
    ensures
        conf_count(t, t[i].name) >= 1,
    decreases t.len(),
{
    if i < t.len() - 1 {
        lemma_count_positive(t.drop_last(), i);
    }
}

proof fn lemma_index_unique(t: Seq<LibraryView>, a: int, b: int)
    requires
        0 <= a < t.len(),
        0 <= b < t.len(),
        t[a].from_config,
        t[b].from_config,
        t[a].name == t[b].name,
        conf_count(t, t[a].name) <= 1,
    ensures
        a == b,
    decreases t.len(),
{
    let n = t[a].name;
    if a != b {
        let l = t.len() - 1;
        if a == l || b == l {
            let o = if a == l {
                b
            } else {
                a
            };
            lemma_count_positive(t.drop_last(), o);
            assert(t.drop_last()[o] == t[o]);
        } else {
            assert(t.drop_last()[a] == t[a]);
            assert(t.drop_last()[b] == t[b]);
            lemma_index_unique(t.drop_last(), a, b);
        }
    }
}


/// Two tables whose rows agree on name and origin, index by index.
pub open spec fn same_keys(a: Seq<LibraryView>, b: Seq<LibraryView>) -> bool {
    &&& a.len() == b.len()
    &&& forall|k: int|
        0 <= k < a.len() ==> (#[trigger] a[k]).name == b[k].name && a[k].from_config
            == b[k].from_config
}

proof fn lemma_same_keys(a: Seq<LibraryView>, b: Seq<LibraryView>, n: Seq<char>)
    requires
        same_keys(a, b),
    ensures
        conf_count(a, n) == conf_count(b, n),
        conf_index(a, n) == conf_index(b, n),
    decreases a.len(),
{
    if a.len() > 0 {
        assert(same_keys(a.drop_last(), b.drop_last())) by {
            assert forall|k: int| 0 <= k < a.len() - 1 implies (#[trigger] a.drop_last()[k]).name
                == b.drop_last()[k].name && a.drop_last()[k].from_config
                == b.drop_last()[k].from_config by {
                assert(a[k] == a.drop_last()[k]);
                assert(b[k] == b.drop_last()[k]);
            }
        }
        lemma_same_keys(a.drop_last(), b.drop_last(), n);
    }
}

/// The last configuration entry of its name.
pub open spec fn last_of_name(cs: Seq<LibraryConfigView>, ci: int) -> bool {
    forall|cj: int| ci < cj < cs.len() ==> #[trigger] cs[cj].name != cs[ci].name
}

proof fn lemma_upsert_all(t: Seq<LibraryView>, cs: Seq<LibraryConfigView>)
    requires
        conf_names_unique(t),
    ensures
        conf_names_unique(upsert_all(t, cs)),
        forall|ci: int| 0 <= ci < cs.len() ==> conf_count(upsert_all(t, cs), #[trigger] cs[ci].name) == 1,
        forall|ci: int|
            0 <= ci < cs.len() && last_of_name(cs, ci) ==> upsert_all(t, cs)[conf_index(
                upsert_all(t, cs),
                #[trigger] cs[ci].name,
            )].enabled == cs[ci].enabled,
        upsert_all(t, cs).len() >= t.len(),
        forall|k: int| 0 <= k < t.len() && !t[k].from_config ==> #[trigger] upsert_all(t, cs)[k] == t[k],
        forall|k: int|
            0 <= k < t.len() ==> (#[trigger] upsert_all(t, cs)[k]).name == t[k].name
                && upsert_all(t, cs)[k].from_config == t[k].from_config,
        forall|k: int|
            t.len() <= k < upsert_all(t, cs).len() ==> (#[trigger] upsert_all(t, cs)[k]).from_config,
    decreases cs.len(),
{
    if cs.len() > 0 {
        let init = cs.drop_last();
        let c = cs.last();
        lemma_upsert_all(t, init);
        let u0 = upsert_all(t, init);
        let u = upsert(u0, c);
        lemma_upsert(u0, c);
        lemma_conf_index(u0, c.name);
        lemma_conf_index(u, c.name);
        assert forall|ci: int| 0 <= ci < cs.len() implies conf_count(u, #[trigger] cs[ci].name) == 1 by {
            if ci < cs.len() - 1 {
                assert(init[ci] == cs[ci]);
                assert(conf_count(u, cs[ci].name) >= conf_count(u0, cs[ci].name));
                assert(conf_names_unique(u));
                assert(conf_count(u, cs[ci].name) <= 1);
            }
        }
        assert forall|ci: int| 0 <= ci < cs.len() && last_of_name(cs, ci) implies u[conf_index(
            u,
            #[trigger] cs[ci].name,
        )].enabled == cs[ci].enabled by {
            if ci < cs.len() - 1 {
                let n = cs[ci].name;
                assert(init[ci] == cs[ci]);
                assert(cs[cs.len() - 1].name != n);
                assert(last_of_name(init, ci)) by {
                    assert forall|cj: int| ci < cj < init.len() implies #[trigger] init[cj].name
                        != init[ci].name by {
                        assert(init[cj] == cs[cj]);
                    }
                }
                let j0 = conf_index(u0, n);
                lemma_conf_index(u0, n);
                lemma_conf_index(u, n);
                let j = conf_index(u, n);
                assert(conf_count(u0, n) == 1);
                assert(j0 >= 0);
                assert(u[j0].name == n && u[j0].from_config);
                lemma_count_positive(u, j0);
                assert(conf_names_unique(u));
                assert(conf_count(u, n) <= 1);
                lemma_index_unique(u, j, j0);
                let ic = conf_index(u0, c.name);
                if ic >= 0 {
                    assert(ic != j0);
                }
            }
        }
        assert forall|k: int| 0 <= k < t.len() && !t[k].from_config implies #[trigger] u[k] == t[k] by {
            assert(u0[k] == t[k]);
            let ic = conf_index(u0, c.name);
            if ic >= 0 {
                assert(ic != k);
            }
        }
    }
}

/// After a merge, each configured name has exactly one configuration row,
/// enabled as its last definition says; a configuration row whose name is
/// no longer configured is disabled; rows of other origin are untouched.
pub proof fn law_merge_libraries(t: Seq<LibraryView>, cs: Seq<LibraryConfigView>)
    requires
        conf_names_unique(t),
    ensures
        forall|ci: int| 0 <= ci < cs.len() ==> conf_count(merged(t, cs), #[trigger] cs[ci].name) == 1,
        forall|ci: int|
            0 <= ci < cs.len() && last_of_name(cs, ci) ==> merged(t, cs)[conf_index(
                merged(t, cs),
                #[trigger] cs[ci].name,
            )].enabled == cs[ci].enabled,
        forall|k: int|
            0 <= k < merged(t, cs).len() && (#[trigger] merged(t, cs)[k]).from_config && !configured(
                cs,
                merged(t, cs)[k].name,
            ) ==> !merged(t, cs)[k].enabled,
        forall|k: int| 0 <= k < t.len() && !t[k].from_config ==> #[trigger] merged(t, cs)[k] == t[k],
{
    lemma_upsert_all(t, cs);
    let u = upsert_all(t, cs);
    let m = merged(t, cs);
    assert(same_keys(m, u));
    assert forall|ci: int| 0 <= ci < cs.len() implies conf_count(m, #[trigger] cs[ci].name) == 1 by {
        lemma_same_keys(m, u, cs[ci].name);
    }
    assert forall|ci: int| 0 <= ci < cs.len() && last_of_name(cs, ci) implies m[conf_index(
        m,
        #[trigger] cs[ci].name,
    )].enabled == cs[ci].enabled by {
        lemma_same_keys(m, u, cs[ci].name);
        lemma_conf_index(u, cs[ci].name);
        let j = conf_index(u, cs[ci].name);
        assert(configured(cs, u[j].name));
    }
}


fn find_conf(table: &Vec<LibraryRow>, name: &String) -> (r: Option<usize>)
    ensures
        match r {
            None => conf_index(table_view(table@), name@) < 0,
            Some(i) => i as int == conf_index(table_view(table@), name@),
        },
{
    let ghost v = table_view(table@);
    let mut j: usize = table.len();
    assert(v.take(j as int) =~= v);
    while j > 0
        invariant
            j <= table@.len(),
            v == table_view(table@),
            conf_index(v, name@) == conf_index(v.take(j as int), name@),
        decreases j,
    {
        assert(v.take(j as int).drop_last() =~= v.take(j - 1));
        if table[j - 1].from_config && table[j - 1].name == *name {
            return Some(j - 1);
        }
        j = j - 1;
    }
    None
}

fn upsert_row(table: &mut Vec<LibraryRow>, cfg: &JobConfig, script_id: i64)
    ensures
        table_view(final(table)@) == upsert(
            table_view(old(table)@),
            LibraryConfigView {
                name: cfg.name@,
                enabled: cfg.enabled,
                path: cfg.source_path@,
                destination: cfg.destination_path@,
                script_id,
            },
        ),
{
    let ghost before = table_view(table@);
    proof {
        lemma_conf_index(before, cfg.name@);
    }
    match find_conf(table, &cfg.name) {
        Some(i) => {
            let old_row = table.remove(i);
            let row = LibraryRow {
                id: old_row.id,
                name: old_row.name,
                from_config: old_row.from_config,
                path: cfg.source_path.clone(),
                destination: cfg.destination_path.clone(),
                script_id,
                enabled: cfg.enabled,
            };
            table.insert(i, row);
        },
        None => {
            table.push(
                LibraryRow {
                    id: None,
                    name: cfg.name.clone(),
                    from_config: true,
                    path: cfg.source_path.clone(),
                    destination: cfg.destination_path.clone(),
                    script_id,
                    enabled: cfg.enabled,
                },
            );
        },
    }
    let ghost c = LibraryConfigView {
        name: cfg.name@,
        enabled: cfg.enabled,
        path: cfg.source_path@,
        destination: cfg.destination_path@,
        script_id,
    };
    assert(table_view(table@) =~= upsert(before, c));
}

fn is_configured(configs: &Vec<JobConfig>, name: &String) -> (r: bool)
    ensures
        r == exists|i: int| 0 <= i < configs@.len() && #[trigger] configs@[i].name@ == name@,
{
    let mut i: usize = 0;
    while i < configs.len()
        invariant
            i <= configs@.len(),
            forall|k: int| 0 <= k < i ==> configs@[k].name@ != name@,
        decreases configs@.len() - i,
    {
        if configs[i].name == *name {
            return true;
        }
        i = i + 1;
    }
    false
}

/// Merges the library definitions into the library table (`script_ids[i]`
/// is the script row of `configs[i]`): each definition updates its
/// configuration row or adds one, then configuration rows that no
/// definition names any more are disabled.
pub fn merge_libraries(table: &mut Vec<LibraryRow>, configs: &Vec<JobConfig>, script_ids: &Vec<i64>)
    requires
        script_ids@.len() == configs@.len(),
    ensures
        table_view(final(table)@) == merged(
            table_view(old(table)@),
            configs_view(configs@, script_ids@),
        ),
{
    let ghost t0 = table_view(table@);
    let ghost cv = configs_view(configs@, script_ids@);
    let mut i: usize = 0;
    assert(upsert_all(t0, cv.take(0)) == t0);
    while i < configs.len()
        invariant
            i <= configs@.len() == script_ids@.len(),
            cv == configs_view(configs@, script_ids@),
            table_view(table@) == upsert_all(t0, cv.take(i as int)),
        decreases configs@.len() - i,
    {
        upsert_row(table, &configs[i], script_ids[i]);
        assert(cv.take(i + 1).drop_last() =~= cv.take(i as int));
        assert(cv.take(i + 1).last() == cv[i as int]);
        i = i + 1;
    }
    assert(cv.take(i as int) =~= cv);
    let ghost u = table_view(table@);
    let mut out: Vec<LibraryRow> = Vec::new();
    let mut k: usize = 0;
    while k < table.len()
        invariant
            k <= table@.len(),
            u == table_view(table@),
            cv == configs_view(configs@, script_ids@),
            table_view(out@) == disable_missing(u, cv).take(k as int),
        decreases table@.len() - k,
    {
        let row = &table[k];
        let keep = !row.from_config || is_configured(configs, &row.name);
        proof {
            assert(configured(cv, u[k as int].name) == exists|i: int|
                0 <= i < configs@.len() && #[trigger] configs@[i].name@ == row.name@) by {
                if configured(cv, u[k as int].name) {
                    let w = choose|w: int| 0 <= w < cv.len() && #[trigger] cv[w].name == u[k as int].name;
                    assert(configs@[w].name@ == row.name@);
                }
                if exists|i: int| 0 <= i < configs@.len() && #[trigger] configs@[i].name@ == row.name@ {
                    let w = choose|w: int| 0 <= w < configs@.len() && #[trigger] configs@[w].name@ == row.name@;
                    assert(cv[w].name == u[k as int].name);
                }
            }
        }
        let copy = LibraryRow {
            id: row.id,
            name: row.name.clone(),
            from_config: row.from_config,
            path: row.path.clone(),
            destination: row.destination.clone(),
            script_id: row.script_id,
            enabled: if keep {
                row.enabled
            } else {
                false
            },
        };
        assert(u[k as int] == row@);
        assert(copy@ == disable_missing(u, cv)[k as int]);
        let ghost before = table_view(out@);
        out.push(copy);
        assert(table_view(out@) =~= before.push(copy@));
        assert(disable_missing(u, cv).take(k + 1) =~= disable_missing(u, cv).take(k as int).push(
            disable_missing(u, cv)[k as int],
        ));
        k = k + 1;
    }
    assert(disable_missing(u, cv).take(k as int) =~= disable_missing(u, cv));
    *table = out;
}

/// A row of the `variables` table; a variable without a library is global.
#[derive(Debug, Clone, PartialEq, Eq)]
pub struct RowVariable {
    pub id: i64,
    pub key: String,
    pub value: Option<String>,
    pub library_id: Option<i64>,
}

/// Whether the variable applies to the library and carries a value.
pub open spec fn applies(v: RowVariable, library_id: i64) -> bool {
    (v.library_id is None || v.library_id == Some(library_id)) && v.value is Some
}

pub open spec fn vars_for(rows: Seq<RowVariable>, library_id: i64) -> Seq<(Seq<char>, Seq<char>)>
    decreases rows.len(),
{
    if rows.len() == 0 {
        Seq::empty()
    } else if applies(rows.last(), library_id) {
        vars_for(rows.drop_last(), library_id).push((rows.last().key@, rows.last().value->Some_0@))
    } else {
        vars_for(rows.drop_last(), library_id)
    }
}

/// The variables of a job in the library: the global ones and the
/// library's own, in row order, leaving out those without a value.
pub fn variables_for(rows: &Vec<RowVariable>, library_id: i64) -> (r: Vec<(String, String)>)
    ensures
        crate::wire::pairs_view(r@) == vars_for(rows@, library_id),
{
    let mut out: Vec<(String, String)> = Vec::new();
    let mut i: usize = 0;
    while i < rows.len()
        invariant
            i <= rows@.len(),
            crate::wire::pairs_view(out@) == vars_for(rows@.take(i as int), library_id),
        decreases rows@.len() - i,
    {
        let row = &rows[i];
        assert(rows@.take(i + 1).drop_last() =~= rows@.take(i as int));
        let applies_here = match row.library_id {
            None => true,
            Some(l) => l == library_id,
        };
        if applies_here {
            match &row.value {
                Some(v) => {
                    let ghost before = crate::wire::pairs_view(out@);
                    out.push((row.key.clone(), v.clone()));
                    assert(crate::wire::pairs_view(out@) =~= before.push((row.key@, v@)));
                },
                None => {},
            }
        }
        i = i + 1;
    }
    assert(rows@.take(i as int) =~= rows@);
    out
}

/// The text of the source file of a job: the file's library-relative path
/// joined onto the library path.
pub open spec fn source_text(library_path: Seq<char>, file_path: Seq<char>) -> Seq<char> {
    render(
        joined(
            path_of_text(library_path),
            path_of_text(file_path),
        ),
    )
}

/// The contract of a popped job, from its rows.
pub fn contract_from_rows(
    job_id: u64,
    library_path: &String,
    file_path: &String,
    destination: &String,
    script: &String,
    vars: Vec<(String, String)>,
) -> (r: JobContract)
    ensures
        r.id == job_id,
        r.src_file@ == source_text(library_path@, file_path@),
        r.library_root == library_path,
        r.dst_dir == destination,
        r.script == script,
        r.vars == vars,
{
    let src = FsPath::parse(library_path.as_str()).join(&FsPath::parse(file_path.as_str()));
    JobContract::new(
        job_id,
        library_path.clone(),
        src.render(),
        destination.clone(),
        vars,
        script.clone(),
    )
}

} // verus!
