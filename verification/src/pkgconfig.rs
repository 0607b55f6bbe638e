//! The pkgconfig dump: the packages that ship pkgconfig files, and the
//! libraries that those files name.

use crate::dedup::{distinct, lemma_distinct_properties, lemma_distinct_push, with_key, KeyTable};
use crate::entry::{decoded, EntryError, EntrySpec, IndexEntry};
use crate::pattern::{captured, Pattern, PatternError};
use crate::sql::{
    dump, dump_lines, lemma_filter_uniform, lib_rows, package_rows, Row, RowSpec,
};
use crate::text::{lossy_text, utf8_lossy};
use vstd::prelude::*;
use vstd::utf8::encode_utf8;

verus! {

/// One library that one package exports.
#[derive(Debug, Clone, PartialEq, Eq)]
pub struct LibExport {
    /// The store path of the package.
    pub store_path: String,
    /// The name of the library, taken from the name of its pkgconfig file.
    pub lib_name: String,
}

/// The mathematical value of a `LibExport`.
pub struct ExportSpec {
    pub store_path: Seq<char>,
    pub lib_name: Seq<char>,
}

impl View for LibExport {
    type V = ExportSpec;

    open spec fn view(&self) -> ExportSpec {
        ExportSpec { store_path: self.store_path@, lib_name: self.lib_name@ }
    }
}

impl DeepView for LibExport {
    type V = ExportSpec;

    open spec fn deep_view(&self) -> ExportSpec {
        self@
    }
}

/// A package together with the libraries it exports, each named once.
#[derive(Debug, Clone, PartialEq, Eq)]
pub struct LibGroup {
    /// The store path of the package.
    pub store_path: String,
    /// The names of its libraries, in the order in which they were first seen.
    pub libs: Vec<String>,
}

/// The mathematical value of a `LibGroup`.
pub struct GroupSpec {
    pub store_path: Seq<char>,
    pub libs: Seq<Seq<char>>,
}

impl View for LibGroup {
    type V = GroupSpec;

    open spec fn view(&self) -> GroupSpec {
        GroupSpec { store_path: self.store_path@, libs: self.libs.deep_view() }
    }
}

impl DeepView for LibGroup {
    type V = GroupSpec;

    open spec fn deep_view(&self) -> GroupSpec {
        self@
    }
}

/// The pattern for the paths of pkgconfig files; its one group is the
/// library's name.
pub open spec fn filter_pattern_text() -> Seq<char> {
    "/lib/pkgconfig/(.*)\\.pc"@
}

/// The library that the file at `file_path` stands for under `pattern`: the
/// path is read as text, the pattern's first group is taken from the text's
/// bytes, and the group is read as text again. `None` where the pattern
/// does not match or its first group took no part.
pub open spec fn lib_name_in(pattern: Seq<char>, file_path: Seq<u8>) -> Option<Seq<char>> {
    match captured(pattern, encode_utf8(utf8_lossy(file_path)), 1) {
        Some(name) => Some(utf8_lossy(name)),
        None => None,
    }
}

/// The exports that `entries` hold under `pattern`, in scan order: one for
/// each entry whose file path names a library.
pub open spec fn exports_of(pattern: Seq<char>, entries: Seq<EntrySpec>) -> Seq<ExportSpec>
    decreases entries.len(),
{
    if entries.len() == 0 {
        Seq::empty()
    } else {
        let before = exports_of(pattern, entries.drop_last());
        match lib_name_in(pattern, entries.last().file_path) {
            Some(lib_name) => before.push(
                ExportSpec { store_path: entries.last().store_path, lib_name },
            ),
            None => before,
        }
    }
}

/// The store paths of `exports`, one per export.
pub open spec fn export_stores(exports: Seq<ExportSpec>) -> Seq<Seq<char>> {
    exports.map_values(|export: ExportSpec| export.store_path)
}

/// The library names of `exports`, one per export.
pub open spec fn lib_names(exports: Seq<ExportSpec>) -> Seq<Seq<char>> {
    exports.map_values(|export: ExportSpec| export.lib_name)
}

/// Whether an export belongs to the package at `store_path`.
pub open spec fn of_package(store_path: Seq<char>) -> spec_fn(ExportSpec) -> bool {
    |export: ExportSpec| export.store_path == store_path
}

/// The packages that export a library, each once, in first-seen order.
pub open spec fn exporting_packages(exports: Seq<ExportSpec>) -> Seq<Seq<char>> {
    distinct(export_stores(exports))
}

/// The libraries of the package at `store_path`, each once, in first-seen
/// order.
pub open spec fn libs_of(exports: Seq<ExportSpec>, store_path: Seq<char>) -> Seq<Seq<char>> {
    distinct(lib_names(exports.filter(of_package(store_path))))
}

/// The exports grouped by package.
pub open spec fn groups_of(exports: Seq<ExportSpec>) -> Seq<GroupSpec> {
    Seq::new(
        exporting_packages(exports).len(),
        |g: int|
            GroupSpec {
                store_path: exporting_packages(exports)[g],
                libs: libs_of(exports, exporting_packages(exports)[g]),
            },
    )
}

/// The number of libraries in all of `groups`.
pub open spec fn lib_count(groups: Seq<GroupSpec>) -> nat
    decreases groups.len(),
{
    if groups.len() == 0 {
        0
    } else {
        lib_count(groups.drop_last()) + groups.last().libs.len()
    }
}

/// The library rows of one package: ids count on from `first_id`.
pub open spec fn group_lib_rows(libs: Seq<Seq<char>>, package_id: nat, first_id: nat) -> Seq<
    RowSpec,
> {
    Seq::new(
        libs.len(),
        |j: int| RowSpec::Lib { id: (first_id + j) as nat, package_id, lib_name: libs[j] },
    )
}

/// The rows for `groups`: for each group in turn its package row, numbered
/// by the group's place, then its library rows, numbered through all groups.
pub open spec fn group_rows(groups: Seq<GroupSpec>) -> Seq<RowSpec>
    decreases groups.len(),
{
    if groups.len() == 0 {
        Seq::empty()
    } else {
        let before = groups.drop_last();
        group_rows(before) + seq![
            RowSpec::Package { id: groups.len(), store_path: groups.last().store_path },
        ] + group_lib_rows(groups.last().libs, groups.len(), lib_count(before) + 1)
    }
}

/// The rows of the pkgconfig dump of `exports`, in emission order.
pub open spec fn pkgconfig_rows(exports: Seq<ExportSpec>) -> Seq<RowSpec> {
    group_rows(groups_of(exports))
}

/// The declarations of the two tables.
pub open spec fn schema_lines() -> Seq<Seq<char>> {
    seq![
        "CREATE TABLE packages (id INTEGER PRIMARY KEY, store_path TEXT UNIQUE);"@,
        "CREATE TABLE exported_libs (id INTEGER PRIMARY KEY, package_id INTEGER REFERENCES packages(id), lib_name TEXT);"@,
    ]
}

/// A further export either adds a library name to its package's list, if
/// the name is new there, or leaves the list as it was.
pub proof fn lemma_libs_of_push(exports: Seq<ExportSpec>, export: ExportSpec, store_path: Seq<char>)
    ensures
        libs_of(exports.push(export), store_path) == if export.store_path == store_path {
            with_key(libs_of(exports, store_path), export.lib_name)
        } else {
            libs_of(exports, store_path)
        },
{
    exports.lemma_filter_push(export, of_package(store_path));
    if export.store_path == store_path {
        let mine = exports.filter(of_package(store_path));
        assert(lib_names(mine.push(export)) =~= lib_names(mine).push(export.lib_name));
        lemma_distinct_push(lib_names(mine), export.lib_name);
    }
}

/// A package that no export names has no libraries.
pub proof fn lemma_libs_of_absent(exports: Seq<ExportSpec>, store_path: Seq<char>)
    requires
        !exporting_packages(exports).contains(store_path),
    ensures
        libs_of(exports, store_path) == Seq::<Seq<char>>::empty(),
{
    lemma_distinct_properties(export_stores(exports));
    let mine = exports.filter(of_package(store_path));
    if mine.len() > 0 {
        exports.lemma_filter_pred(of_package(store_path), 0);
        assert(mine.contains(mine[0]));
        exports.lemma_filter_contains_rev(of_package(store_path), mine[0]);
        let i = choose|i: int| 0 <= i < exports.len() && exports[i] == mine[0];
        assert(export_stores(exports)[i] == store_path);
        assert(export_stores(exports).contains(store_path));
    }
    assert(lib_names(mine) =~= Seq::<Seq<char>>::empty());
}

/// How the groups change with a further export: a package seen before gets
/// the library added to its list, if it is new there; a new package joins
/// at the end with that one library.
pub proof fn lemma_groups_of_push(exports: Seq<ExportSpec>, export: ExportSpec)
    ensures
        exporting_packages(exports.push(export)) == with_key(
            exporting_packages(exports),
            export.store_path,
        ),
        exporting_packages(exports).contains(export.store_path) ==> groups_of(
            exports.push(export),
        ) == groups_of(exports).update(
            exporting_packages(exports).index_of(export.store_path),
            GroupSpec {
                store_path: export.store_path,
                libs: with_key(libs_of(exports, export.store_path), export.lib_name),
            },
        ),
        !exporting_packages(exports).contains(export.store_path) ==> groups_of(
            exports.push(export),
        ) == groups_of(exports).push(
            GroupSpec { store_path: export.store_path, libs: seq![export.lib_name] },
        ),
{
    let packages = exporting_packages(exports);
    let grown = exports.push(export);
    assert(export_stores(grown) =~= export_stores(exports).push(export.store_path));
    lemma_distinct_push(export_stores(exports), export.store_path);
    lemma_distinct_properties(export_stores(exports));
    assert forall|g: int| 0 <= g < exporting_packages(grown).len() implies libs_of(
        grown,
        #[trigger] exporting_packages(grown)[g],
    ) == if exporting_packages(grown)[g] == export.store_path {
        with_key(libs_of(exports, export.store_path), export.lib_name)
    } else {
        libs_of(exports, exporting_packages(grown)[g])
    } by {
        lemma_libs_of_push(exports, export, exporting_packages(grown)[g]);
    }
    if packages.contains(export.store_path) {
        let at = packages.index_of(export.store_path);
        assert forall|g: int| 0 <= g < packages.len() && g != at implies #[trigger] packages[g]
            != export.store_path by {}
        assert(groups_of(grown) =~= groups_of(exports).update(
            at,
            GroupSpec {
                store_path: export.store_path,
                libs: with_key(libs_of(exports, export.store_path), export.lib_name),
            },
        ));
    } else {
        lemma_libs_of_absent(exports, export.store_path);
        assert forall|g: int| 0 <= g < packages.len() implies #[trigger] packages[g]
            != export.store_path by {
            assert(packages.contains(packages[g]));
        }
        assert(with_key(Seq::<Seq<char>>::empty(), export.lib_name) =~= seq![export.lib_name]);
        assert(groups_of(grown) =~= groups_of(exports).push(
            GroupSpec { store_path: export.store_path, libs: seq![export.lib_name] },
        ));
    }
}

/// Counting the libraries of the first groups, one group more adds its own.
pub proof fn lemma_lib_count_take(groups: Seq<GroupSpec>, n: int)
    requires
        0 <= n < groups.len(),
    ensures
        lib_count(groups.take(n + 1)) == lib_count(groups.take(n)) + groups[n].libs.len(),
        lib_count(groups.take(n + 1)) <= lib_count(groups),
    decreases groups.len() - n,
{
    assert(groups.take(n + 1).drop_last() =~= groups.take(n));
    if n + 1 < groups.len() {
        lemma_lib_count_take(groups, n + 1);
    } else {
        assert(groups.take(n + 1) =~= groups);
    }
}

/// A library added to one group is one library more in all.
pub proof fn lemma_lib_count_update(groups: Seq<GroupSpec>, at: int, group: GroupSpec)
    requires
        0 <= at < groups.len(),
    ensures
        lib_count(groups.update(at, group)) == lib_count(groups) - groups[at].libs.len()
            + group.libs.len(),
    decreases groups.len(),
{
    let changed = groups.update(at, group);
    if at == groups.len() - 1 {
        assert(changed.drop_last() =~= groups.drop_last());
    } else {
        assert(changed.drop_last() =~= groups.drop_last().update(at, group));
        lemma_lib_count_update(groups.drop_last(), at, group);
    }
}

/// Whether `row` lists a library of the package with the key `package_id`.
pub open spec fn lib_row_of(row: RowSpec, package_id: nat) -> bool {
    match row {
        RowSpec::Lib { package_id: owner, .. } => owner == package_id,
        _ => false,
    }
}

/// Whether `rows` list at least one library of the package with the key
/// `package_id`.
pub open spec fn has_lib_row(rows: Seq<RowSpec>, package_id: nat) -> bool {
    exists|j: int| 0 <= j < rows.len() && lib_row_of(#[trigger] rows[j], package_id)
}

/// Whether two rows list the same library name for the same package.
pub open spec fn same_lib(a: RowSpec, b: RowSpec) -> bool {
    match (a, b) {
        (
            RowSpec::Lib { package_id: owner_a, lib_name: name_a, .. },
            RowSpec::Lib { package_id: owner_b, lib_name: name_b, .. },
        ) => owner_a == owner_b && name_a == name_b,
        _ => false,
    }
}

/// Whether `row` belongs to `groups`: a package row carries the place and
/// the store path of one group, a library row the place of one group and one
/// of its library names.
pub open spec fn row_of_groups(row: RowSpec, groups: Seq<GroupSpec>) -> bool {
    match row {
        RowSpec::Package { id, store_path } => {
            &&& 1 <= id <= groups.len()
            &&& groups[id - 1].store_path == store_path
        },
        RowSpec::Lib { id, package_id, lib_name } => {
            &&& 1 <= package_id <= groups.len()
            &&& groups[package_id - 1].libs.contains(lib_name)
        },
        _ => false,
    }
}

/// Whether `rows` hold the row of a package that has the key `package_id`
/// and that exports `lib_name`.
pub open spec fn exported_by_listed_package(
    rows: Seq<RowSpec>,
    exports: Seq<ExportSpec>,
    package_id: nat,
    lib_name: Seq<char>,
) -> bool {
    exists|store_path: Seq<char>|
        {
            &&& #[trigger] rows.contains(RowSpec::Package { id: package_id, store_path })
            &&& exports.contains(ExportSpec { store_path, lib_name })
        }
}

/// Whether every group has a library and names none twice.
pub open spec fn groups_proper(groups: Seq<GroupSpec>) -> bool {
    forall|g: int|
        0 <= g < groups.len() ==> (#[trigger] groups[g]).libs.len() > 0
            && groups[g].libs.no_duplicates()
}

/// Grouping puts every export, and nothing else, under its package: no
/// package stands twice, every group has a library and names none twice,
/// and each name in a group comes from an export of that package.
pub proof fn lemma_groups_sound(exports: Seq<ExportSpec>)
    ensures
        exporting_packages(exports).no_duplicates(),
        groups_proper(groups_of(exports)),
        forall|g: int|
            0 <= g < groups_of(exports).len() ==> export_stores(exports).contains(
                (#[trigger] groups_of(exports)[g]).store_path,
            ),
        forall|g: int, j: int|
            0 <= g < groups_of(exports).len() && 0 <= j < groups_of(exports)[g].libs.len()
                ==> exports.contains(
                ExportSpec {
                    store_path: groups_of(exports)[g].store_path,
                    lib_name: #[trigger] groups_of(exports)[g].libs[j],
                },
            ),
{
    let packages = exporting_packages(exports);
    let groups = groups_of(exports);
    lemma_distinct_properties(export_stores(exports));
    assert forall|g: int| 0 <= g < groups.len() implies (#[trigger] groups[g]).libs.len() > 0
        && groups[g].libs.no_duplicates() && export_stores(exports).contains(
        groups[g].store_path,
    ) by {
        let store_path = packages[g];
        let mine = exports.filter(of_package(store_path));
        assert(packages.contains(store_path));
        let i = choose|i: int|
            0 <= i < export_stores(exports).len() && export_stores(exports)[i] == store_path;
        exports.lemma_filter_contains(of_package(store_path), i);
        let m = choose|m: int| 0 <= m < mine.len() && mine[m] == exports[i];
        assert(lib_names(mine)[m] == exports[i].lib_name);
        assert(lib_names(mine).contains(exports[i].lib_name));
        lemma_distinct_properties(lib_names(mine));
        assert(libs_of(exports, store_path).contains(exports[i].lib_name));
    }
    assert forall|g: int, j: int|
        0 <= g < groups.len() && 0 <= j < groups[g].libs.len() implies exports.contains(
        ExportSpec { store_path: groups[g].store_path, lib_name: #[trigger] groups[g].libs[j] },
    ) by {
        let store_path = packages[g];
        let mine = exports.filter(of_package(store_path));
        let lib_name = groups[g].libs[j];
        lemma_distinct_properties(lib_names(mine));
        assert(libs_of(exports, store_path).contains(lib_name));
        assert(lib_names(mine).contains(lib_name));
        let m = choose|m: int| 0 <= m < lib_names(mine).len() && lib_names(mine)[m] == lib_name;
        exports.lemma_filter_pred(of_package(store_path), m);
        assert(mine.contains(mine[m]));
        exports.lemma_filter_contains_rev(of_package(store_path), mine[m]);
        assert(mine[m] == ExportSpec { store_path, lib_name });
    }
}

/// What holds of the rows for proper groups: every row belongs to the
/// groups, every group has its package row, every package row is followed
/// up by a library row, and no two library rows say the same.
pub proof fn lemma_group_rows_sound(groups: Seq<GroupSpec>)
    requires
        groups_proper(groups),
    ensures
        forall|i: int|
            0 <= i < group_rows(groups).len() ==> row_of_groups(
                #[trigger] group_rows(groups)[i],
                groups,
            ),
        forall|g: int|
            0 <= g < groups.len() ==> group_rows(groups).contains(
                RowSpec::Package {
                    id: (g + 1) as nat,
                    store_path: (#[trigger] groups[g]).store_path,
                },
            ),
        forall|g: int| 1 <= g <= groups.len() ==> #[trigger] has_lib_row(group_rows(groups), g as nat),
        forall|i: int, j: int|
            0 <= i < group_rows(groups).len() && 0 <= j < group_rows(groups).len() && i != j
                ==> !same_lib(#[trigger] group_rows(groups)[i], #[trigger] group_rows(groups)[j]),
    decreases groups.len(),
{
    if groups.len() > 0 {
        let before = groups.drop_last();
        let last = groups.last();
        let n = groups.len();
        let earlier = group_rows(before);
        let package = RowSpec::Package { id: n, store_path: last.store_path };
        let block = group_lib_rows(last.libs, n, lib_count(before) + 1);
        let rows = group_rows(groups);
        let start = earlier.len() + 1;
        assert(groups_proper(before)) by {
            assert forall|g: int| 0 <= g < before.len() implies (#[trigger] before[g]).libs.len()
                > 0 && before[g].libs.no_duplicates() by {
                assert(before[g] == groups[g]);
            }
        }
        lemma_group_rows_sound(before);
        assert(rows =~= earlier + seq![package] + block);
        assert(groups[n - 1] == last);
        assert forall|i: int| 0 <= i < rows.len() implies row_of_groups(#[trigger] rows[i], groups) by {
            if i < earlier.len() {
                assert(rows[i] == earlier[i]);
                assert(row_of_groups(earlier[i], before));
                match earlier[i] {
                    RowSpec::Package { id, .. } => {
                        assert(before[id - 1] == groups[id - 1]);
                    },
                    RowSpec::Lib { package_id, .. } => {
                        assert(before[package_id - 1] == groups[package_id - 1]);
                    },
                    _ => {},
                }
            } else if i == earlier.len() {
                assert(rows[i] == package);
            } else {
                assert(rows[i] == block[i - start]);
                assert(last.libs.contains(last.libs[i - start]));
            }
        }
        assert forall|g: int| 0 <= g < groups.len() implies rows.contains(
            RowSpec::Package { id: (g + 1) as nat, store_path: (#[trigger] groups[g]).store_path },
        ) by {
            if g < before.len() {
                let row = RowSpec::Package {
                    id: (g + 1) as nat,
                    store_path: before[g].store_path,
                };
                assert(earlier.contains(row));
                let i = choose|i: int| 0 <= i < earlier.len() && earlier[i] == row;
                assert(rows[i] == row);
            } else {
                assert(rows[earlier.len() as int] == package);
            }
        }
        assert forall|g: int| 1 <= g <= groups.len() implies #[trigger] has_lib_row(
            rows,
            g as nat,
        ) by {
            if g < n {
                assert(has_lib_row(earlier, g as nat));
                let j = choose|j: int|
                    0 <= j < earlier.len() && lib_row_of(#[trigger] earlier[j], g as nat);
                assert(rows[j] == earlier[j]);
            } else {
                assert(rows[start as int] == block[0]);
                assert(lib_row_of(rows[start as int], g as nat));
            }
        }
        assert forall|i: int, j: int|
            0 <= i < rows.len() && 0 <= j < rows.len() && i != j implies !same_lib(
            #[trigger] rows[i],
            #[trigger] rows[j],
        ) by {
            if i < earlier.len() {
                assert(rows[i] == earlier[i]);
                assert(row_of_groups(earlier[i], before));
            } else if i > earlier.len() {
                assert(rows[i] == block[i - start]);
            }
            if j < earlier.len() {
                assert(rows[j] == earlier[j]);
                assert(row_of_groups(earlier[j], before));
            } else if j > earlier.len() {
                assert(rows[j] == block[j - start]);
            }
        }
    }
}

/// The package table as it must come out: one row per group, numbered by
/// the group's place from 1.
pub open spec fn package_table(groups: Seq<GroupSpec>) -> Seq<RowSpec> {
    Seq::new(
        groups.len(),
        |g: int| RowSpec::Package { id: (g + 1) as nat, store_path: groups[g].store_path },
    )
}

/// Whether the rows carry the ids 1, 2, 3 and so on, in this order.
pub open spec fn numbered_from_one(rows: Seq<RowSpec>) -> bool {
    forall|m: int|
        0 <= m < rows.len() ==> match #[trigger] rows[m] {
            RowSpec::Package { id, .. } => id == m + 1,
            RowSpec::File { id, .. } => id == m + 1,
            RowSpec::Lib { id, .. } => id == m + 1,
            RowSpec::Entry { .. } => false,
        }
}

/// Ids are given in emission order and from 1: the package rows are the
/// groups in their order, and the library rows, as many as there are
/// libraries, count 1, 2, 3 and so on through all packages.
pub proof fn lemma_group_rows_numbered(groups: Seq<GroupSpec>)
    ensures
        package_rows(group_rows(groups)) == package_table(groups),
        lib_rows(group_rows(groups)).len() == lib_count(groups),
        numbered_from_one(lib_rows(group_rows(groups))),
        group_rows(groups).len() == groups.len() + lib_count(groups),
    decreases groups.len(),
{
    let is_package = |row: RowSpec| row is Package;
    let is_lib = |row: RowSpec| row is Lib;
    if groups.len() == 0 {
        lemma_filter_uniform(group_rows(groups), is_package);
        lemma_filter_uniform(group_rows(groups), is_lib);
        assert(package_rows(group_rows(groups)) =~= package_table(groups));
    } else {
        let before = groups.drop_last();
        let last = groups.last();
        let earlier = group_rows(before);
        let package = RowSpec::Package { id: groups.len(), store_path: last.store_path };
        let block = group_lib_rows(last.libs, groups.len(), lib_count(before) + 1);
        lemma_group_rows_numbered(before);
        Seq::filter_distributes_over_add(earlier + seq![package], block, is_package);
        Seq::filter_distributes_over_add(earlier, seq![package], is_package);
        Seq::filter_distributes_over_add(earlier + seq![package], block, is_lib);
        Seq::filter_distributes_over_add(earlier, seq![package], is_lib);
        lemma_filter_uniform(seq![package], is_package);
        lemma_filter_uniform(seq![package], is_lib);
        lemma_filter_uniform(block, is_package);
        lemma_filter_uniform(block, is_lib);
        assert(package_rows(group_rows(groups)) =~= package_table(groups));
        assert(lib_rows(group_rows(groups)) =~= lib_rows(earlier) + block);
    }
}

/// An export never comes from nowhere: each stands for an entry of its
/// package whose file path names that library.
pub proof fn lemma_exports_of_sound(pattern: Seq<char>, entries: Seq<EntrySpec>)
    ensures
        exports_of(pattern, entries).len() <= entries.len(),
        forall|i: int|
            0 <= i < exports_of(pattern, entries).len() ==> exists|k: int|
                {
                    &&& 0 <= k < entries.len()
                    &&& (#[trigger] entries[k]).store_path == (#[trigger] exports_of(
                        pattern,
                        entries,
                    )[i]).store_path
                    &&& lib_name_in(pattern, entries[k].file_path) == Some(
                        exports_of(pattern, entries)[i].lib_name,
                    )
                },
    decreases entries.len(),
{
    if entries.len() > 0 {
        let before = entries.drop_last();
        let found = exports_of(pattern, entries);
        lemma_exports_of_sound(pattern, before);
        assert forall|i: int| 0 <= i < found.len() implies exists|k: int|
            {
                &&& 0 <= k < entries.len()
                &&& (#[trigger] entries[k]).store_path == (#[trigger] found[i]).store_path
                &&& lib_name_in(pattern, entries[k].file_path) == Some(found[i].lib_name)
            } by {
            if i < exports_of(pattern, before).len() {
                assert(found[i] == exports_of(pattern, before)[i]);
                let k = choose|k: int|
                    {
                        &&& 0 <= k < before.len()
                        &&& (#[trigger] before[k]).store_path == exports_of(
                            pattern,
                            before,
                        )[i].store_path
                        &&& lib_name_in(pattern, before[k].file_path) == Some(
                            exports_of(pattern, before)[i].lib_name,
                        )
                    };
                assert(entries[k] == before[k]);
            } else {
                let k = entries.len() - 1;
                assert(entries[k].store_path == found[i].store_path);
            }
        }
    }
}

/// The pkgconfig dump keeps its promises, whatever the exports: every
/// package row has at least one library row; no two library rows name the
/// same library for the same package; every package row is that of a package
/// with an export, and every library row refers to a package row and names a
/// library that this very package exports. So a package without a pkgconfig
/// file appears in neither table.
pub proof fn lemma_pkgconfig_rows_sound(exports: Seq<ExportSpec>)
    ensures
        forall|i: int|
            0 <= i < pkgconfig_rows(exports).len() ==> match #[trigger] pkgconfig_rows(exports)[i] {
                RowSpec::Package { id, store_path } => {
                    &&& has_lib_row(pkgconfig_rows(exports), id)
                    &&& export_stores(exports).contains(store_path)
                },
                RowSpec::Lib { id, package_id, lib_name } => exported_by_listed_package(
                    pkgconfig_rows(exports),
                    exports,
                    package_id,
                    lib_name,
                ),
                _ => false,
            },
        forall|i: int, j: int|
            0 <= i < pkgconfig_rows(exports).len() && 0 <= j < pkgconfig_rows(exports).len() && i
                != j ==> !same_lib(
                #[trigger] pkgconfig_rows(exports)[i],
                #[trigger] pkgconfig_rows(exports)[j],
            ),
{
    let groups = groups_of(exports);
    let rows = pkgconfig_rows(exports);
    lemma_groups_sound(exports);
    lemma_group_rows_sound(groups);
    assert forall|i: int| 0 <= i < rows.len() implies match #[trigger] rows[i] {
        RowSpec::Package { id, store_path } => {
            &&& has_lib_row(rows, id)
            &&& export_stores(exports).contains(store_path)
        },
        RowSpec::Lib { id, package_id, lib_name } => exported_by_listed_package(
            rows,
            exports,
            package_id,
            lib_name,
        ),
        _ => false,
    } by {
        assert(row_of_groups(rows[i], groups));
        match rows[i] {
            RowSpec::Package { id, store_path } => {
                assert(has_lib_row(rows, id));
                assert(groups[id - 1].store_path == store_path);
            },
            RowSpec::Lib { id, package_id, lib_name } => {
                let group = groups[package_id - 1];
                let j = choose|j: int| 0 <= j < group.libs.len() && group.libs[j] == lib_name;
                assert(exports.contains(
                    ExportSpec { store_path: group.store_path, lib_name: group.libs[j] },
                ));
                assert(rows.contains(
                    RowSpec::Package {
                        id: ((package_id - 1) + 1) as nat,
                        store_path: groups[package_id - 1].store_path,
                    },
                ));
            },
            _ => {},
        }
    }
}

/// Whether some entry of the package at `store_path` names a library under
/// `pattern`.
pub open spec fn ships_library(pattern: Seq<char>, entries: Seq<EntrySpec>, store_path: Seq<char>) -> bool {
    exists|k: int|
        {
            &&& 0 <= k < entries.len()
            &&& (#[trigger] entries[k]).store_path == store_path
            &&& lib_name_in(pattern, entries[k].file_path).is_some()
        }
}

/// A package none of whose entries names a library has no row in the dump:
/// every package row is that of a package which ships a library.
pub proof fn lemma_listed_packages_ship_libraries(pattern: Seq<char>, entries: Seq<EntrySpec>)
    ensures
        forall|i: int|
            0 <= i < pkgconfig_rows(exports_of(pattern, entries)).len() ==> match #[trigger] pkgconfig_rows(
                exports_of(pattern, entries),
            )[i] {
                RowSpec::Package { id, store_path } => ships_library(pattern, entries, store_path),
                _ => true,
            },
{
    let exports = exports_of(pattern, entries);
    let rows = pkgconfig_rows(exports);
    lemma_pkgconfig_rows_sound(exports);
    lemma_exports_of_sound(pattern, entries);
    assert forall|i: int| 0 <= i < rows.len() implies match #[trigger] rows[i] {
        RowSpec::Package { id, store_path } => ships_library(pattern, entries, store_path),
        _ => true,
    } by {
        match rows[i] {
            RowSpec::Package { id, store_path } => {
                assert(export_stores(exports).contains(store_path));
                let e = choose|e: int|
                    0 <= e < export_stores(exports).len() && export_stores(exports)[e]
                        == store_path;
                assert(exports[e].store_path == store_path);
                let k = choose|k: int|
                    {
                        &&& 0 <= k < entries.len()
                        &&& (#[trigger] entries[k]).store_path == exports[e].store_path
                        &&& lib_name_in(pattern, entries[k].file_path) == Some(exports[e].lib_name)
                    };
                assert(entries[k].store_path == store_path);
            },
            _ => {},
        }
    }
}

/// The pattern that selects the pkgconfig files of the index and captures
/// the library name in each path.
pub fn filter_pattern() -> (res: Result<Pattern, PatternError>)
    ensures
        res matches Ok(pattern) ==> pattern@ == filter_pattern_text(),
{
    Pattern::compile("/lib/pkgconfig/(.*)\\.pc")
}

/// The declarations of the two tables.
pub fn schema() -> (lines: Vec<String>)
    ensures
        lines.deep_view() == schema_lines(),
{
    let mut lines: Vec<String> = Vec::new();
    lines.push(
        String::from_str("CREATE TABLE packages (id INTEGER PRIMARY KEY, store_path TEXT UNIQUE);"),
    );
    lines.push(
        String::from_str(
            "CREATE TABLE exported_libs (id INTEGER PRIMARY KEY, package_id INTEGER REFERENCES packages(id), lib_name TEXT);",
        ),
    );
    assert(lines.deep_view() =~= schema_lines());
    lines
}

/// Extracts the library name from a file path, if the path has one under
/// `pattern`.
pub fn extract_lib_name(pattern: &Pattern, file_path: &[u8]) -> (name: Option<String>)
    ensures
        name.deep_view() == lib_name_in(pattern@, file_path@),
{
    let text = lossy_text(file_path);
    match pattern.capture(text.as_str().as_bytes(), 1) {
        Some(bytes) => Some(lossy_text(bytes.as_slice())),
        None => None,
    }
}

/// Scans a stream for exports: one for each decoded entry whose file path
/// names a library under `pattern`, in stream order.
pub fn exports(pattern: &Pattern, items: &Vec<Result<IndexEntry, EntryError>>) -> (found: Vec<
    LibExport,
>)
    ensures
        found.deep_view() == exports_of(pattern@, decoded(items@)),
{
    let mut found: Vec<LibExport> = Vec::new();
    let mut i: usize = 0;
    while i < items.len()
        invariant
            i <= items.len(),
            found.deep_view() =~= exports_of(pattern@, decoded(items@.take(i as int))),
        decreases items.len() - i,
    {
        let ghost before = found.deep_view();
        proof {
            assert(items@.take(i + 1).drop_last() =~= items@.take(i as int));
            assert(items@.take(i + 1).last() == items@[i as int]);
        }
        match &items[i] {
            Ok(entry) => {
                proof {
                    let seen = decoded(items@.take(i as int));
                    assert(seen.push(entry@).drop_last() =~= seen);
                }
                match extract_lib_name(pattern, entry.file_path.as_slice()) {
                    Some(lib_name) => {
                        let export = LibExport { store_path: entry.store_path.clone(), lib_name };
                        found.push(export);
                        assert(found.deep_view() =~= before.push(export@));
                    },
                    None => {},
                }
            },
            Err(_) => {},
        }
        i += 1;
    }
    assert(items@.take(i as int) =~= items@);
    found
}

fn holds_text(texts: &Vec<String>, text: &String) -> (found: bool)
    ensures
        found == texts.deep_view().contains(text@),
{
    let mut i: usize = 0;
    while i < texts.len()
        invariant
            i <= texts.len(),
            forall|j: int| 0 <= j < i ==> texts.deep_view()[j] != text@,
        decreases texts.len() - i,
    {
        if texts[i] == *text {
            assert(texts.deep_view()[i as int] == text@);
            return true;
        }
        i += 1;
    }
    false
}

/// Groups exports by package: packages in first-seen order, and for each
/// package its library names in first-seen order, each once.
pub fn group(exports: &Vec<LibExport>) -> (groups: Vec<LibGroup>)
    ensures
        groups.deep_view() == groups_of(exports.deep_view()),
        lib_count(groups.deep_view()) <= exports.len(),
{
    let mut slots = KeyTable::new();
    let mut groups: Vec<LibGroup> = Vec::new();
    let mut i: usize = 0;
    assert(groups.deep_view() =~= groups_of(exports.deep_view().take(0)));
    while i < exports.len()
        invariant
            i <= exports.len(),
            slots.wf(),
            slots.keys() == exporting_packages(exports.deep_view().take(i as int)),
            groups.deep_view() =~= groups_of(exports.deep_view().take(i as int)),
            lib_count(groups.deep_view()) <= i,
        decreases exports.len() - i,
    {
        let export = &exports[i];
        let ghost seen = exports.deep_view().take(i as int);
        let ghost before = groups.deep_view();
        proof {
            assert(exports.deep_view().take(i + 1) =~= seen.push(export@));
            lemma_groups_of_push(seen, export@);
            lemma_distinct_properties(export_stores(seen));
            slots.lemma_wf();
        }
        let (id, fresh) = slots.intern(export.store_path.as_str());
        if fresh {
            let mut libs: Vec<String> = Vec::new();
            libs.push(export.lib_name.clone());
            assert(libs.deep_view() =~= seq![export@.lib_name]);
            let group = LibGroup { store_path: export.store_path.clone(), libs };
            groups.push(group);
            proof {
                assert(groups.deep_view() =~= before.push(group@));
                assert(groups.deep_view().drop_last() =~= before);
            }
        } else {
            let slot = (id - 1) as usize;
            if !holds_text(&groups[slot].libs, &export.lib_name) {
                let ghost libs_before = groups[slot as int].libs.deep_view();
                groups[slot].libs.push(export.lib_name.clone());
                proof {
                    assert(groups[slot as int].libs.deep_view() =~= libs_before.push(
                        export@.lib_name,
                    ));
                    assert(groups.deep_view() =~= before.update(slot as int, groups[slot as int]@));
                    lemma_lib_count_update(before, slot as int, groups[slot as int]@);
                }
            } else {
                assert(groups.deep_view() =~= before.update(slot as int, before[slot as int]));
            }
        }
        i += 1;
    }
    assert(exports.deep_view().take(i as int) =~= exports.deep_view());
    groups
}

/// The rows for `groups`: each package row is followed by the rows of its
/// libraries; packages are numbered by their place, libraries through all
/// groups, both from 1.
pub fn rows_of_groups(groups: &Vec<LibGroup>) -> (rows: Vec<Row>)
    requires
        lib_count(groups.deep_view()) <= u64::MAX,
    ensures
        rows.deep_view() == group_rows(groups.deep_view()),
{
    let ghost all = groups.deep_view();
    let mut rows: Vec<Row> = Vec::new();
    let mut libs_done: u64 = 0;
    let mut g: usize = 0;
    while g < groups.len()
        invariant
            g <= groups.len(),
            all == groups.deep_view(),
            lib_count(all) <= u64::MAX,
            libs_done == lib_count(all.take(g as int)),
            rows.deep_view() =~= group_rows(all.take(g as int)),
        decreases groups.len() - g,
    {
        let group = &groups[g];
        let package_id: u64 = g as u64 + 1;
        proof {
            lemma_lib_count_take(all, g as int);
            assert(all.take(g + 1).drop_last() =~= all.take(g as int));
            assert(all.take(g + 1).last() == group@);
        }
        let ghost before = rows.deep_view();
        let package = Row::Package { id: package_id, store_path: group.store_path.clone() };
        rows.push(package);
        let ghost head = before.push(package@);
        let ghost block = group_lib_rows(group@.libs, package_id as nat, (libs_done + 1) as nat);
        assert(rows.deep_view() =~= head + block.take(0));
        let mut j: usize = 0;
        while j < group.libs.len()
            invariant
                j <= group.libs.len(),
                libs_done + group.libs.len() <= u64::MAX,
                block == group_lib_rows(group@.libs, package_id as nat, (libs_done + 1) as nat),
                rows.deep_view() =~= head + block.take(j as int),
            decreases group.libs.len() - j,
        {
            let ghost so_far = rows.deep_view();
            let lib = Row::Lib {
                id: libs_done + j as u64 + 1,
                package_id,
                lib_name: group.libs[j].clone(),
            };
            rows.push(lib);
            proof {
                assert(rows.deep_view() =~= so_far.push(lib@));
                assert(block[j as int] == lib@);
                assert(block.take(j + 1) =~= block.take(j as int).push(block[j as int]));
            }
            j += 1;
        }
        proof {
            assert(block.take(j as int) =~= block);
            assert(head =~= before + seq![package@]);
        }
        libs_done = libs_done + group.libs.len() as u64;
        g += 1;
    }
    assert(all.take(g as int) =~= all);
    rows
}

/// The rows of the pkgconfig dump for the exports found in a scan: only
/// packages with at least one library get rows, and no library is listed
/// twice for one package.
pub fn rows(exports: &Vec<LibExport>) -> (rows: Vec<Row>)
    ensures
        rows.deep_view() == pkgconfig_rows(exports.deep_view()),
{
    let groups = group(exports);
    rows_of_groups(&groups)
}

/// The whole pkgconfig dump of a stream under `pattern`, line by line.
pub fn dump_with_pattern(pattern: &Pattern, items: &Vec<Result<IndexEntry, EntryError>>) -> (lines:
    Vec<String>)
    ensures
        lines.deep_view() == dump_lines(
            schema_lines(),
            pkgconfig_rows(exports_of(pattern@, decoded(items@))),
        ),
{
    let found = exports(pattern, items);
    let rows = rows(&found);
    dump(schema(), &rows)
}

/// The whole pkgconfig dump of a stream, line by line, or the reason why
/// the pattern for pkgconfig files could not be compiled.
pub fn dump_sqlite_pkgconfig_libs(items: &Vec<Result<IndexEntry, EntryError>>) -> (res: Result<
    Vec<String>,
    PatternError,
>)
    ensures
        res matches Ok(lines) ==> lines.deep_view() == dump_lines(
            schema_lines(),
            pkgconfig_rows(exports_of(filter_pattern_text(), decoded(items@))),
        ),
{
    dump_for_outcome(filter_pattern(), items)
}

/// The pkgconfig dump of a stream for whatever the compiler made of the
/// pattern: the dump under the pattern if there is one, else the compiler's
/// refusal, unchanged.
pub fn dump_for_outcome(
    compiled: Result<Pattern, PatternError>,
    items: &Vec<Result<IndexEntry, EntryError>>,
) -> (res: Result<Vec<String>, PatternError>)
    ensures
        match compiled {
            Ok(pattern) => res matches Ok(lines) && lines.deep_view() == dump_lines(
                schema_lines(),
                pkgconfig_rows(exports_of(pattern@, decoded(items@))),
            ),
            Err(refusal) => res == Err::<Vec<String>, PatternError>(refusal),
        },
{
    match compiled {
        Ok(pattern) => Ok(dump_with_pattern(&pattern, items)),
        Err(refusal) => Err(refusal),
    }
}

} // verus!
