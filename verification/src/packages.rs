//! The reconciler: given the desired list and the installed list, the
//! desired records that need installing or upgrading, in desired
//! order. Also the reading of a whole definitions source, line by
//! line, with skipped lines dropped.

use core::cmp::Ordering;
use vstd::prelude::*;

use crate::package_info::spec_parse_line;
use crate::package_info::PackageInfo;
use crate::semver::spec_compare;
use crate::semver::SemVer;

verus! {

/// The first installed record bearing the given name, if any; records
/// after the first of a name are never consulted.
pub open spec fn spec_find_by_name(installed: Seq<PackageInfo>, name: Seq<char>) -> Option<
    PackageInfo,
>
    decreases installed.len(),
{
    if installed.len() == 0 {
        None
    } else if installed[0].name@ == name {
        Some(installed[0])
    } else {
        spec_find_by_name(installed.drop_first(), name)
    }
}

/// A desired record needs work when nothing installed bears its name,
/// or the first installed record of that name has a strictly lower
/// version; equal or newer installed versions satisfy it.
pub open spec fn spec_needs_install(d: PackageInfo, installed: Seq<PackageInfo>) -> bool {
    match spec_find_by_name(installed, d.name@) {
        None => true,
        Some(p) => spec_compare(d.version, p.version) == Ordering::Greater,
    }
}

/// The desired records that need work, keeping the desired order.
pub open spec fn spec_reconcile(defs: Seq<PackageInfo>, installed: Seq<PackageInfo>) -> Seq<
    PackageInfo,
>
    decreases defs.len(),
{
    if defs.len() == 0 {
        Seq::empty()
    } else {
        let rest = spec_reconcile(defs.drop_first(), installed);
        if spec_needs_install(defs[0], installed) {
            seq![defs[0]] + rest
        } else {
            rest
        }
    }
}

/// `spec_find_by_name` returns the first match.
proof fn lemma_find_first(installed: Seq<PackageInfo>, name: Seq<char>, j: int)
    requires
        0 <= j < installed.len(),
        installed[j].name@ == name,
        forall|k: int| 0 <= k < j ==> installed[k].name@ != name,
    ensures
        spec_find_by_name(installed, name) == Some(installed[j]),
    decreases installed.len(),
{
    if j > 0 {
        assert(installed.drop_first()[j - 1] == installed[j]);
        assert(forall|k: int| 0 <= k < j - 1 ==> installed.drop_first()[k] == installed[k + 1]);
        lemma_find_first(installed.drop_first(), name, j - 1);
    }
}

/// `spec_find_by_name` finds nothing exactly when no record matches.
proof fn lemma_find_none(installed: Seq<PackageInfo>, name: Seq<char>)
    requires
        forall|k: int| 0 <= k < installed.len() ==> installed[k].name@ != name,
    ensures
        spec_find_by_name(installed, name) is None,
    decreases installed.len(),
{
    if installed.len() > 0 {
        assert(forall|k: int|
            0 <= k < installed.drop_first().len() ==> installed.drop_first()[k] == installed[k
                + 1]);
        lemma_find_none(installed.drop_first(), name);
    }
}

/// Reconciling one more desired record appends it exactly when it
/// needs work.
proof fn lemma_reconcile_snoc(defs: Seq<PackageInfo>, d: PackageInfo, installed: Seq<PackageInfo>)
    ensures
        spec_reconcile(defs.push(d), installed) == spec_reconcile(defs, installed) + (
        if spec_needs_install(d, installed) {
            seq![d]
        } else {
            Seq::<PackageInfo>::empty()
        }),
    decreases defs.len(),
{
    let tail = if spec_needs_install(d, installed) {
        seq![d]
    } else {
        Seq::<PackageInfo>::empty()
    };
    if defs.len() == 0 {
        assert(defs.push(d)[0] == d);
        assert(defs =~= Seq::<PackageInfo>::empty());
        assert(defs.push(d).drop_first() =~= Seq::<PackageInfo>::empty());
        assert(spec_reconcile(Seq::<PackageInfo>::empty(), installed)
            == Seq::<PackageInfo>::empty());
        assert(spec_reconcile(defs.push(d), installed) =~= spec_reconcile(defs, installed) + tail);
    } else {
        assert(defs.push(d).drop_first() =~= defs.drop_first().push(d));
        assert(defs.push(d)[0] == defs[0]);
        lemma_reconcile_snoc(defs.drop_first(), d, installed);
        assert(spec_reconcile(defs.push(d), installed) =~= spec_reconcile(defs, installed) + tail);
    }
}

/// Law: with nothing installed, every desired record needs work: the
/// reconciliation is the desired list itself, order kept.
pub proof fn lemma_reconcile_nothing_installed(defs: Seq<PackageInfo>)
    ensures
        spec_reconcile(defs, Seq::empty()) == defs,
    decreases defs.len(),
{
    if defs.len() > 0 {
        lemma_reconcile_nothing_installed(defs.drop_first());
        assert(spec_reconcile(defs, Seq::empty()) =~= defs);
    }
}

/// Law: with nothing desired, nothing needs work, whatever is
/// installed.
pub proof fn lemma_reconcile_nothing_desired(installed: Seq<PackageInfo>)
    ensures
        spec_reconcile(Seq::empty(), installed) == Seq::<PackageInfo>::empty(),
{
}

/// Law: the reconciliation is exactly the desired list filtered to the
/// records that need work — nothing else appears, and the desired
/// order is kept.
pub proof fn lemma_reconcile_is_filter(defs: Seq<PackageInfo>, installed: Seq<PackageInfo>)
    ensures
        spec_reconcile(defs, installed) == defs.filter(
            |d: PackageInfo| spec_needs_install(d, installed),
        ),
    decreases defs.len(),
{
    reveal(Seq::filter);
    let pred = |d: PackageInfo| spec_needs_install(d, installed);
    if defs.len() == 0 {
        assert(spec_reconcile(defs, installed) =~= defs.filter(pred));
    } else {
        let init = defs.drop_last();
        let d = defs.last();
        lemma_reconcile_is_filter(init, installed);
        lemma_reconcile_snoc(init, d, installed);
        assert(init.push(d) =~= defs);
        assert(spec_reconcile(defs, installed) =~= defs.filter(pred));
    }
}

/// The first installed record named like `name`, if any.
fn find_by_name<'a>(installed: &'a [PackageInfo], name: &String) -> (r: Option<&'a PackageInfo>)
    ensures
        match r {
            Some(p) => spec_find_by_name(installed@, name@) == Some(*p),
            None => spec_find_by_name(installed@, name@) is None,
        },
{
    let n = installed.len();
    let mut j: usize = 0;
    while j < n
        invariant
            0 <= j <= n == installed@.len(),
            forall|k: int| 0 <= k < j ==> installed@[k].name@ != name@,
        decreases n - j,
    {
        if installed[j].name == *name {
            proof {
                lemma_find_first(installed@, name@, j as int);
            }
            return Some(&installed[j]);
        }
        j = j + 1;
    }
    proof {
        lemma_find_none(installed@, name@);
    }
    None
}

/// Walks the desired list in order; a record goes to the output
/// exactly when no installed record bears its name or the first one
/// that does has a strictly lower version.
pub fn compare_pkg_lists(defs: &[PackageInfo], installed: &[PackageInfo]) -> (out: Vec<
    PackageInfo,
>)
    ensures
        out@ == spec_reconcile(defs@, installed@),
{
    let mut out: Vec<PackageInfo> = Vec::new();
    let n = defs.len();
    let mut i: usize = 0;
    while i < n
        invariant
            0 <= i <= n == defs@.len(),
            out@ == spec_reconcile(defs@.take(i as int), installed@),
        decreases n - i,
    {
        let def = &defs[i];
        proof {
            assert(defs@.take(i + 1) =~= defs@.take(i as int).push(defs@[i as int]));
            lemma_reconcile_snoc(defs@.take(i as int), defs@[i as int], installed@);
        }
        match find_by_name(installed, &def.name) {
            None => {
                out.push(def.clone());
            },
            Some(p) => {
                if matches!(PackageInfo::compare_versions(def, p), Ordering::Greater) {
                    out.push(def.clone());
                }
            },
        }
        proof {
            assert(out@ =~= spec_reconcile(defs@.take(i + 1), installed@));
        }
        i = i + 1;
    }
    proof {
        assert(defs@.take(n as int) =~= defs@);
    }
    out
}

/// The records read from a sequence of definitions lines: one per line
/// that parses, in line order, skipped lines dropped.
pub open spec fn spec_parse_defs(lines: Seq<Seq<char>>) -> Seq<(Seq<char>, SemVer)>
    decreases lines.len(),
{
    if lines.len() == 0 {
        Seq::empty()
    } else {
        let rest = spec_parse_defs(lines.drop_first());
        match spec_parse_line(lines[0]) {
            None => rest,
            Some(p) => seq![p] + rest,
        }
    }
}

/// Reading one more line appends its record exactly when it parses.
proof fn lemma_parse_defs_snoc(lines: Seq<Seq<char>>, l: Seq<char>)
    ensures
        spec_parse_defs(lines.push(l)) == spec_parse_defs(lines) + (match spec_parse_line(l) {
            None => Seq::<(Seq<char>, SemVer)>::empty(),
            Some(p) => seq![p],
        }),
    decreases lines.len(),
{
    let tail = match spec_parse_line(l) {
        None => Seq::<(Seq<char>, SemVer)>::empty(),
        Some(p) => seq![p],
    };
    if lines.len() == 0 {
        assert(lines.push(l)[0] == l);
        assert(lines =~= Seq::<Seq<char>>::empty());
        assert(lines.push(l).drop_first() =~= Seq::<Seq<char>>::empty());
        assert(spec_parse_defs(Seq::<Seq<char>>::empty()) == Seq::<(Seq<char>, SemVer)>::empty());
        assert(spec_parse_defs(lines.push(l)) =~= spec_parse_defs(lines) + tail);
    } else {
        assert(lines.push(l).drop_first() =~= lines.drop_first().push(l));
        assert(lines.push(l)[0] == lines[0]);
        lemma_parse_defs_snoc(lines.drop_first(), l);
        assert(spec_parse_defs(lines.push(l)) =~= spec_parse_defs(lines) + tail);
    }
}

/// Reads a whole definitions source, one line at a time; lines that do
/// not parse are skipped, and the records keep the line order.
pub fn parse_pkg_defs(lines: &Vec<String>) -> (out: Vec<PackageInfo>)
    ensures
        out@.map_values(|p: PackageInfo| (p.name@, p.version)) == spec_parse_defs(
            lines.deep_view(),
        ),
{
    let mut out: Vec<PackageInfo> = Vec::new();
    let n = lines.len();
    let mut i: usize = 0;
    while i < n
        invariant
            0 <= i <= n == lines@.len(),
            out@.map_values(|p: PackageInfo| (p.name@, p.version)) == spec_parse_defs(
                lines.deep_view().take(i as int),
            ),
        decreases n - i,
    {
        proof {
            assert(lines.deep_view().take(i + 1) =~= lines.deep_view().take(i as int).push(
                lines@[i as int]@,
            ));
            lemma_parse_defs_snoc(lines.deep_view().take(i as int), lines@[i as int]@);
        }
        match PackageInfo::from_pkg_str(lines[i].as_str()) {
            Some(p) => {
                out.push(p);
            },
            None => {},
        }
        proof {
            assert(out@.map_values(|p: PackageInfo| (p.name@, p.version)) =~= spec_parse_defs(
                lines.deep_view().take(i + 1),
            ));
        }
        i = i + 1;
    }
    proof {
        assert(lines.deep_view().take(n as int) =~= lines.deep_view());
    }
    out
}

} // verus!
