//! winget's package tables as records, and the command lines and decisions around the
//! calls to winget: what to run for each operation, and what to make of what it answers.

use vstd::prelude::*;
use crate::table::{
    header_index, is_separator, lemma_rows_ignore_header_words, parse_rows, row_view, rows_view,
    spec_column_starts, table_rows,
};
use crate::decode::{decode, spec_decode};
use crate::text::{
    chars_of, copy_range, has_ws, is_subseq, is_whitespace, is_ws, join_spaces, join_with_spaces, lines, lines_of,
    push_arg, same_text, seqs_view, string_of, strings_view, trim, trim_str,
};

verus! {

/// A package with a newer version available (a row of `winget upgrade`).
#[derive(Clone, Debug)]
pub struct Upgrade {
    pub name: String,
    pub id: String,
    pub current: String,
    pub available: String,
    pub source: String,
}

/// A package found by `winget search` or installed (`winget list`).
#[derive(Clone, Debug)]
pub struct Package {
    pub name: String,
    pub id: String,
    pub version: String,
    pub source: String,
}

/// The texts of an `Upgrade`.
pub struct UpgradeView {
    pub name: Seq<char>,
    pub id: Seq<char>,
    pub current: Seq<char>,
    pub available: Seq<char>,
    pub source: Seq<char>,
}

/// The texts of a `Package`.
pub struct PackageView {
    pub name: Seq<char>,
    pub id: Seq<char>,
    pub version: Seq<char>,
    pub source: Seq<char>,
}

impl View for Upgrade {
    type V = UpgradeView;

    open spec fn view(&self) -> UpgradeView {
        UpgradeView {
            name: self.name@,
            id: self.id@,
            current: self.current@,
            available: self.available@,
            source: self.source@,
        }
    }
}

impl View for Package {
    type V = PackageView;

    open spec fn view(&self) -> PackageView {
        PackageView {
            name: self.name@,
            id: self.id@,
            version: self.version@,
            source: self.source@,
        }
    }
}

/// Cell `i` of a row, or an empty text when the row has no such cell.
pub open spec fn field(f: Seq<Seq<char>>, i: int) -> Seq<char> {
    if 0 <= i < f.len() {
        f[i]
    } else {
        seq![]
    }
}

/// The last cell of a row (the source column), or an empty text.
pub open spec fn last_field(f: Seq<Seq<char>>) -> Seq<char> {
    if f.len() > 0 {
        f.last()
    } else {
        seq![]
    }
}

/// A row of `winget upgrade` (Name, Id, Version, Available, ..., Source) as an upgrade, when
/// it is one: an Id without whitespace and a non-empty available version.
pub open spec fn upgrade_of_row(f: Seq<Seq<char>>) -> Option<UpgradeView> {
    let id = field(f, 1);
    let available = field(f, 3);
    if id.len() == 0 || has_ws(id) || available.len() == 0 {
        None
    } else {
        Some(
            UpgradeView {
                name: field(f, 0),
                id,
                current: field(f, 2),
                available,
                source: last_field(f),
            },
        )
    }
}

/// A row of `winget search` / `winget list` (Name, Id, Version, [Match], Source) as a
/// package, when it is one: an Id without whitespace.
pub open spec fn package_of_row(f: Seq<Seq<char>>) -> Option<PackageView> {
    let id = field(f, 1);
    if id.len() == 0 || has_ws(id) {
        None
    } else {
        Some(PackageView { name: field(f, 0), id, version: field(f, 2), source: last_field(f) })
    }
}

/// The upgrades listed in the output of `winget upgrade`.
pub open spec fn spec_parse_upgrades(text: Seq<char>) -> Seq<UpgradeView> {
    table_rows(text).filter_map(|f: Seq<Seq<char>>| upgrade_of_row(f))
}

/// The packages listed in the output of `winget search` or `winget list`.
pub open spec fn spec_parse_packages(text: Seq<char>) -> Seq<PackageView> {
    table_rows(text).filter_map(|f: Seq<Seq<char>>| package_of_row(f))
}

/// The views of a list of upgrades.
pub open spec fn upgrades_view(v: Seq<Upgrade>) -> Seq<UpgradeView> {
    v.map_values(|u: Upgrade| u@)
}

/// The views of a list of packages.
pub open spec fn packages_view(v: Seq<Package>) -> Seq<PackageView> {
    v.map_values(|p: Package| p@)
}

/// Cell `i` of a parsed row as a string.
fn field_string(f: &Vec<Vec<char>>, i: usize) -> (r: String)
    ensures
        r@ == field(row_view(*f), i as int),
{
    if i < f.len() {
        let c = &f[i];
        string_of(c)
    } else {
        String::new()
    }
}

/// The last cell of a parsed row as a string.
fn last_field_string(f: &Vec<Vec<char>>) -> (r: String)
    ensures
        r@ == last_field(row_view(*f)),
{
    if f.len() > 0 {
        field_string(f, f.len() - 1)
    } else {
        String::new()
    }
}

/// Whether cell `i` of a parsed row is a usable Id: present, non-empty, without whitespace.
fn is_id_cell(f: &Vec<Vec<char>>, i: usize) -> (r: bool)
    ensures
        r == (field(row_view(*f), i as int).len() > 0 && !has_ws(field(row_view(*f), i as int))),
{
    if i >= f.len() {
        return false;
    }
    let c = &f[i];
    assert(c@ == field(row_view(*f), i as int));
    if c.len() == 0 {
        return false;
    }
    let mut k: usize = 0;
    while k < c.len()
        invariant
            k <= c.len(),
            c@ == field(row_view(*f), i as int),
            forall|j: int| 0 <= j < k ==> !is_ws(#[trigger] c@[j]),
        decreases c.len() - k,
    {
        if is_whitespace(c[k]) {
            assert(is_ws(field(row_view(*f), i as int)[k as int]));
            return false;
        }
        k = k + 1;
    }
    true
}

/// Whether cell `i` of a parsed row is present and non-empty.
fn is_filled_cell(f: &Vec<Vec<char>>, i: usize) -> (r: bool)
    ensures
        r == (field(row_view(*f), i as int).len() > 0),
{
    i < f.len() && f[i].len() > 0
}

/// The upgrades listed in the output of `winget upgrade`. The table is found and cut by
/// position, not by the header's words, so it reads the same in every language. Every
/// upgrade returned has a non-empty Id without whitespace and a non-empty available version.
pub fn parse_upgrades(text: &str) -> (r: Vec<Upgrade>)
    ensures
        upgrades_view(r@) == spec_parse_upgrades(text@),
        forall|k: int|
            0 <= k < r@.len() ==> #[trigger] r@[k].id@.len() > 0 && !has_ws(r@[k].id@)
                && r@[k].available@.len() > 0,
{
    let rows = parse_rows(text);
    let ghost rv = rows_view(rows@);
    let ghost pick = |f: Seq<Seq<char>>| upgrade_of_row(f);
    let mut out: Vec<Upgrade> = Vec::new();
    let mut i: usize = 0;
    while i < rows.len()
        invariant
            i <= rows.len(),
            rv == rows_view(rows@),
            pick == (|f: Seq<Seq<char>>| upgrade_of_row(f)),
            upgrades_view(out@) == rv.take(i as int).filter_map(pick),
            forall|k: int|
                0 <= k < out@.len() ==> #[trigger] out@[k].id@.len() > 0 && !has_ws(out@[k].id@)
                    && out@[k].available@.len() > 0,
        decreases rows.len() - i,
    {
        let f = &rows[i];
        assert(rv[i as int] == row_view(*f));
        proof {
            rv.lemma_filter_map_take_succ(pick, i as int);
        }
        if is_id_cell(f, 1) && is_filled_cell(f, 3) {
            let u = Upgrade {
                name: field_string(f, 0),
                id: field_string(f, 1),
                current: field_string(f, 2),
                available: field_string(f, 3),
                source: last_field_string(f),
            };
            let ghost before = upgrades_view(out@);
            out.push(u);
            assert(upgrades_view(out@) =~= before + seq![u@]);
        }
        i = i + 1;
    }
    assert(rv.take(rows.len() as int) =~= rv);
    out
}

/// The packages listed in the output of `winget search` or `winget list`, read by position
/// like `parse_upgrades`. Every package returned has a non-empty Id without whitespace.
pub fn parse_packages(text: &str) -> (r: Vec<Package>)
    ensures
        packages_view(r@) == spec_parse_packages(text@),
        forall|k: int| 0 <= k < r@.len() ==> #[trigger] r@[k].id@.len() > 0 && !has_ws(r@[k].id@),
{
    let rows = parse_rows(text);
    let ghost rv = rows_view(rows@);
    let ghost pick = |f: Seq<Seq<char>>| package_of_row(f);
    let mut out: Vec<Package> = Vec::new();
    let mut i: usize = 0;
    while i < rows.len()
        invariant
            i <= rows.len(),
            rv == rows_view(rows@),
            pick == (|f: Seq<Seq<char>>| package_of_row(f)),
            packages_view(out@) == rv.take(i as int).filter_map(pick),
            forall|k: int|
                0 <= k < out@.len() ==> #[trigger] out@[k].id@.len() > 0 && !has_ws(out@[k].id@),
        decreases rows.len() - i,
    {
        let f = &rows[i];
        assert(rv[i as int] == row_view(*f));
        proof {
            rv.lemma_filter_map_take_succ(pick, i as int);
        }
        if is_id_cell(f, 1) {
            let p = Package {
                name: field_string(f, 0),
                id: field_string(f, 1),
                version: field_string(f, 2),
                source: last_field_string(f),
            };
            let ghost before = packages_view(out@);
            out.push(p);
            assert(packages_view(out@) =~= before + seq![p@]);
        }
        i = i + 1;
    }
    assert(rv.take(rows.len() as int) =~= rv);
    out
}

/// The `--source` arguments for a source choice: none for an empty choice or "all".
pub open spec fn source_argv(source: Seq<char>) -> Seq<Seq<char>> {
    let s = trim(source);
    if s.len() > 0 && s != "all"@ {
        seq!["--source"@, s]
    } else {
        seq![]
    }
}

/// The argument that picks the install mode.
pub open spec fn mode_argv(silent: bool) -> Seq<Seq<char>> {
    if silent {
        seq!["--silent"@]
    } else {
        seq!["--interactive"@]
    }
}

/// Adds `--source <source>` unless the choice is empty or "all".
pub fn add_source(args: &mut Vec<String>, source: &str)
    ensures
        strings_view(final(args)@) == strings_view(old(args)@) + source_argv(source@),
{
    let s = trim_str(source);
    if !s.as_str().is_empty() && !same_text(s.as_str(), "all") {
        push_arg(args, "--source");
        push_arg(args, s.as_str());
        assert(strings_view(args@) =~= strings_view(old(args)@) + source_argv(source@));
    } else {
        assert(strings_view(args@) =~= strings_view(old(args)@) + source_argv(source@));
    }
}

/// Adds `--silent` or `--interactive`.
pub fn add_mode(args: &mut Vec<String>, silent: bool)
    ensures
        strings_view(final(args)@) == strings_view(old(args)@) + mode_argv(silent),
{
    if silent {
        push_arg(args, "--silent");
    } else {
        push_arg(args, "--interactive");
    }
    assert(strings_view(args@) =~= strings_view(old(args)@) + mode_argv(silent));
}

/// The arguments that list the available upgrades.
pub open spec fn list_upgrades_argv() -> Seq<Seq<char>> {
    seq![
        "upgrade"@,
        "--include-unknown"@,
        "--accept-source-agreements"@,
        "--disable-interactivity"@,
    ]
}

/// The arguments of `winget` that list the available upgrades.
pub fn list_upgrades_args() -> (r: Vec<String>)
    ensures
        strings_view(r@) == list_upgrades_argv(),
{
    let mut v: Vec<String> = Vec::new();
    push_arg(&mut v, "upgrade");
    push_arg(&mut v, "--include-unknown");
    push_arg(&mut v, "--accept-source-agreements");
    push_arg(&mut v, "--disable-interactivity");
    assert(strings_view(v@) =~= list_upgrades_argv());
    v
}

/// The arguments that search for `q` (already trimmed) in the chosen source.
pub open spec fn search_argv(q: Seq<char>, source: Seq<char>) -> Seq<Seq<char>> {
    seq![
        "search"@,
        "--query"@,
        q,
        "--accept-source-agreements"@,
        "--disable-interactivity"@,
    ] + source_argv(source)
}

/// The arguments of `winget` that search for `query` in `source`; `None` when the query is
/// blank, in which case nothing is run and the search finds nothing.
pub fn search_args(query: &str, source: &str) -> (r: Option<Vec<String>>)
    ensures
        trim(query@).len() == 0 ==> r is None,
        trim(query@).len() > 0 ==> (r matches Some(v) && strings_view(v@) == search_argv(
            trim(query@),
            source@,
        )),
{
    let q = trim_str(query);
    if q.as_str().is_empty() {
        return None;
    }
    let mut v: Vec<String> = Vec::new();
    push_arg(&mut v, "search");
    push_arg(&mut v, "--query");
    push_arg(&mut v, q.as_str());
    push_arg(&mut v, "--accept-source-agreements");
    push_arg(&mut v, "--disable-interactivity");
    add_source(&mut v, source);
    assert(strings_view(v@) =~= search_argv(trim(query@), source@));
    Some(v)
}

/// The arguments that list the installed packages, filtered by `query` when not blank.
pub open spec fn list_installed_argv(query: Seq<char>) -> Seq<Seq<char>> {
    seq!["list"@, "--accept-source-agreements"@, "--disable-interactivity"@] + if trim(
        query,
    ).len() > 0 {
        seq!["--query"@, trim(query)]
    } else {
        seq![]
    }
}

/// The arguments of `winget` that list the installed packages.
pub fn list_installed_args(query: &str) -> (r: Vec<String>)
    ensures
        strings_view(r@) == list_installed_argv(query@),
{
    let q = trim_str(query);
    let mut v: Vec<String> = Vec::new();
    push_arg(&mut v, "list");
    push_arg(&mut v, "--accept-source-agreements");
    push_arg(&mut v, "--disable-interactivity");
    if !q.as_str().is_empty() {
        push_arg(&mut v, "--query");
        push_arg(&mut v, q.as_str());
    }
    assert(strings_view(v@) =~= list_installed_argv(query@));
    v
}

/// The arguments that upgrade the package `id` silently.
pub open spec fn upgrade_package_argv(id: Seq<char>) -> Seq<Seq<char>> {
    seq![
        "upgrade"@,
        "--id"@,
        id,
        "--exact"@,
        "--silent"@,
        "--accept-source-agreements"@,
        "--accept-package-agreements"@,
        "--include-unknown"@,
    ]
}

/// The arguments of `winget` that upgrade one package.
pub fn upgrade_package_args(id: &str) -> (r: Vec<String>)
    ensures
        strings_view(r@) == upgrade_package_argv(id@),
{
    let mut v: Vec<String> = Vec::new();
    push_arg(&mut v, "upgrade");
    push_arg(&mut v, "--id");
    push_arg(&mut v, id);
    push_arg(&mut v, "--exact");
    push_arg(&mut v, "--silent");
    push_arg(&mut v, "--accept-source-agreements");
    push_arg(&mut v, "--accept-package-agreements");
    push_arg(&mut v, "--include-unknown");
    assert(strings_view(v@) =~= upgrade_package_argv(id@));
    v
}

/// The arguments that upgrade every package silently.
pub open spec fn upgrade_all_argv() -> Seq<Seq<char>> {
    seq![
        "upgrade"@,
        "--all"@,
        "--silent"@,
        "--accept-source-agreements"@,
        "--accept-package-agreements"@,
        "--include-unknown"@,
    ]
}

/// The arguments of `winget` that upgrade every package.
pub fn upgrade_all_args() -> (r: Vec<String>)
    ensures
        strings_view(r@) == upgrade_all_argv(),
{
    let mut v: Vec<String> = Vec::new();
    push_arg(&mut v, "upgrade");
    push_arg(&mut v, "--all");
    push_arg(&mut v, "--silent");
    push_arg(&mut v, "--accept-source-agreements");
    push_arg(&mut v, "--accept-package-agreements");
    push_arg(&mut v, "--include-unknown");
    assert(strings_view(v@) =~= upgrade_all_argv());
    v
}

/// The arguments that install the package `id` from `source` in the chosen mode.
pub open spec fn install_package_argv(id: Seq<char>, source: Seq<char>, silent: bool) -> Seq<
    Seq<char>,
> {
    seq![
        "install"@,
        "--id"@,
        id,
        "--exact"@,
        "--accept-source-agreements"@,
        "--accept-package-agreements"@,
    ] + mode_argv(silent) + source_argv(source)
}

/// The arguments of `winget` that install one package.
pub fn install_package_args(id: &str, source: &str, silent: bool) -> (r: Vec<String>)
    ensures
        strings_view(r@) == install_package_argv(id@, source@, silent),
{
    let mut v: Vec<String> = Vec::new();
    push_arg(&mut v, "install");
    push_arg(&mut v, "--id");
    push_arg(&mut v, id);
    push_arg(&mut v, "--exact");
    push_arg(&mut v, "--accept-source-agreements");
    push_arg(&mut v, "--accept-package-agreements");
    add_mode(&mut v, silent);
    add_source(&mut v, source);
    assert(strings_view(v@) =~= install_package_argv(id@, source@, silent));
    v
}

/// The arguments that uninstall the package `id` in the chosen mode.
pub open spec fn uninstall_package_argv(id: Seq<char>, silent: bool) -> Seq<Seq<char>> {
    seq!["uninstall"@, "--id"@, id, "--exact"@, "--accept-source-agreements"@] + mode_argv(
        silent,
    )
}

/// The arguments of `winget` that uninstall one package.
pub fn uninstall_package_args(id: &str, silent: bool) -> (r: Vec<String>)
    ensures
        strings_view(r@) == uninstall_package_argv(id@, silent),
{
    let mut v: Vec<String> = Vec::new();
    push_arg(&mut v, "uninstall");
    push_arg(&mut v, "--id");
    push_arg(&mut v, id);
    push_arg(&mut v, "--exact");
    push_arg(&mut v, "--accept-source-agreements");
    add_mode(&mut v, silent);
    assert(strings_view(v@) =~= uninstall_package_argv(id@, silent));
    v
}

/// What is said when winget failed and printed nothing.
pub open spec fn no_results_message() -> Seq<char> {
    "winget no devolvió resultados. Comprueba que está instalado y actualizado."@
}

/// The first `n` lines of `ls`, or all of them when there are fewer.
pub open spec fn first_lines(ls: Seq<Seq<char>>, n: int) -> Seq<Seq<char>> {
    if ls.len() <= n {
        ls
    } else {
        ls.take(n)
    }
}

/// The message for a failed winget call: its error output, trimmed, when there is one;
/// otherwise the first three lines of its (trimmed) standard output joined by spaces;
/// otherwise a fixed message.
pub open spec fn spec_winget_error(stderr: Seq<u8>, stdout_text: Seq<char>) -> Seq<char> {
    let err = trim(spec_decode(stderr));
    let out = trim(stdout_text);
    if err.len() > 0 {
        err
    } else if out.len() > 0 {
        join_spaces(first_lines(lines(out), 3))
    } else {
        no_results_message()
    }
}

/// A readable message built from what a failed winget call printed.
pub fn winget_error(stderr: &[u8], stdout_text: &str) -> (r: String)
    ensures
        r@ == spec_winget_error(stderr@, stdout_text@),
{
    let err = decode(stderr);
    let err = trim_str(err.as_str());
    if !err.as_str().is_empty() {
        return err;
    }
    let out = trim_str(stdout_text);
    if !out.as_str().is_empty() {
        let chars = chars_of(out.as_str());
        let ls = lines_of(&chars);
        let mut first: Vec<Vec<char>> = Vec::new();
        let mut i: usize = 0;
        while i < ls.len() && i < 3
            invariant
                i <= ls.len(),
                i <= 3,
                seqs_view(first@) == seqs_view(ls@).take(i as int),
            decreases ls.len() - i,
        {
            let c = copy_range(&ls[i], 0, ls[i].len());
            assert(c@ =~= ls@[i as int]@);
            let ghost before = seqs_view(first@);
            first.push(c);
            assert(seqs_view(first@) =~= before.push(c@));
            assert(seqs_view(first@) =~= seqs_view(ls@).take(i + 1));
            i = i + 1;
        }
        assert(seqs_view(first@) =~= first_lines(seqs_view(ls@), 3));
        return join_with_spaces(&first);
    }
    no_results_text()
}

/// The fixed message for a failed winget call that printed nothing.
fn no_results_text() -> (r: String)
    ensures
        r@ == no_results_message(),
{
    crate::text::to_string_of("winget no devolvió resultados. Comprueba que está instalado y actualizado.")
}

/// What a listing call comes to: the rows parsed from its output; an error built from what
/// it printed when it failed and nothing could be parsed.
pub open spec fn listing_outcome<T>(parsed: Seq<T>, success: bool, stderr: Seq<u8>, stdout: Seq<
    u8,
>) -> Result<Seq<T>, Seq<char>> {
    if parsed.len() == 0 && !success {
        Err(spec_winget_error(stderr, spec_decode(stdout)))
    } else {
        Ok(parsed)
    }
}

/// The result of `winget upgrade` (listing): the upgrades in its output, or, when it failed
/// and listed nothing, an error message built from what it printed.
pub fn upgrades_outcome(stdout: &[u8], stderr: &[u8], success: bool) -> (r: Result<
    Vec<Upgrade>,
    String,
>)
    ensures
        match r {
            Ok(v) => listing_outcome(
                spec_parse_upgrades(spec_decode(stdout@)),
                success,
                stderr@,
                stdout@,
            ) == Ok::<Seq<UpgradeView>, Seq<char>>(upgrades_view(v@)),
            Err(e) => listing_outcome(
                spec_parse_upgrades(spec_decode(stdout@)),
                success,
                stderr@,
                stdout@,
            ) == Err::<Seq<UpgradeView>, Seq<char>>(e@),
        },
{
    let text = decode(stdout);
    let ups = parse_upgrades(text.as_str());
    if ups.len() == 0 && !success {
        return Err(winget_error(stderr, text.as_str()));
    }
    Ok(ups)
}

/// The result of `winget search` or `winget list`: the packages in its output, or, when it
/// failed and listed nothing, an error message built from what it printed.
pub fn packages_outcome(stdout: &[u8], stderr: &[u8], success: bool) -> (r: Result<
    Vec<Package>,
    String,
>)
    ensures
        match r {
            Ok(v) => listing_outcome(
                spec_parse_packages(spec_decode(stdout@)),
                success,
                stderr@,
                stdout@,
            ) == Ok::<Seq<PackageView>, Seq<char>>(packages_view(v@)),
            Err(e) => listing_outcome(
                spec_parse_packages(spec_decode(stdout@)),
                success,
                stderr@,
                stdout@,
            ) == Err::<Seq<PackageView>, Seq<char>>(e@),
        },
{
    let text = decode(stdout);
    let pkgs = parse_packages(text.as_str());
    if pkgs.len() == 0 && !success {
        return Err(winget_error(stderr, text.as_str()));
    }
    Ok(pkgs)
}

/// The lists of upgrades and packages do not depend on the header's words: putting in
/// place of the header line any other line that is not a separator and starts its columns
/// at the same positions (the header in another language, say) gives the same lists.
pub proof fn lemma_listings_ignore_header_words(t1: Seq<char>, t2: Seq<char>, h: int)
    requires
        lines(t1).len() == lines(t2).len(),
        forall|k: int| 0 <= k < lines(t1).len() && k != h ==> lines(t1)[k] == lines(t2)[k],
        header_index(lines(t1)) == Some(h),
        h > 0 ==> !is_separator(lines(t2)[h]),
        spec_column_starts(lines(t1)[h]) == spec_column_starts(lines(t2)[h]),
    ensures
        spec_parse_upgrades(t1) == spec_parse_upgrades(t2),
        spec_parse_packages(t1) == spec_parse_packages(t2),
{
    lemma_rows_ignore_header_words(t1, t2, h);
}

/// An upgrade as the package it is: the same name, Id and source, its current version as
/// the version.
pub open spec fn package_of_upgrade(u: UpgradeView) -> PackageView {
    PackageView { name: u.name, id: u.id, version: u.current, source: u.source }
}

/// Every row taken as an upgrade is taken as a package too, and as the same package.
proof fn lemma_upgrade_row_is_package(f: Seq<Seq<char>>)
    ensures
        upgrade_of_row(f) matches Some(u) ==> package_of_row(f) == Some(package_of_upgrade(u)),
        (package_of_row(f) is Some && field(f, 3).len() > 0) ==> upgrade_of_row(f) is Some,
{
}

/// Over any rows: the upgrades, as packages, are a subsequence of the packages; and they
/// are all the packages when every row taken as a package has a fourth cell.
proof fn lemma_upgrades_within_package_rows(rows: Seq<Seq<Seq<char>>>)
    ensures
        is_subseq(
            rows.filter_map(|f: Seq<Seq<char>>| upgrade_of_row(f)).map_values(
                |u: UpgradeView| package_of_upgrade(u),
            ),
            rows.filter_map(|f: Seq<Seq<char>>| package_of_row(f)),
        ),
        (forall|k: int|
            0 <= k < rows.len() && #[trigger] package_of_row(rows[k]) is Some ==> field(rows[k], 3).len()
                > 0) ==> rows.filter_map(|f: Seq<Seq<char>>| upgrade_of_row(f)).map_values(
            |u: UpgradeView| package_of_upgrade(u),
        ) == rows.filter_map(|f: Seq<Seq<char>>| package_of_row(f)),
    decreases rows.len(),
{
    let fu = |f: Seq<Seq<char>>| upgrade_of_row(f);
    let fp = |f: Seq<Seq<char>>| package_of_row(f);
    let g = |u: UpgradeView| package_of_upgrade(u);
    if rows.len() == 0 {
        assert(rows.filter_map(fu).map_values(g) =~= rows.filter_map(fp));
    } else {
        let rest = rows.drop_last();
        let f = rows.last();
        lemma_upgrades_within_package_rows(rest);
        lemma_upgrade_row_is_package(f);
        let a0 = rest.filter_map(fu).map_values(g);
        let b0 = rest.filter_map(fp);
        assert(rows.filter_map(fu) == match fu(f) {
            Some(u) => rest.filter_map(fu) + seq![u],
            None => rest.filter_map(fu),
        });
        assert(rows.filter_map(fp) == match fp(f) {
            Some(p) => b0 + seq![p],
            None => b0,
        });
        match fu(f) {
            Some(u) => {
                let p = package_of_upgrade(u);
                assert(rows.filter_map(fu).map_values(g) =~= a0.push(p));
                assert(rows.filter_map(fp) =~= b0.push(p));
                assert(a0.push(p).drop_last() =~= a0);
                assert(b0.push(p).drop_last() =~= b0);
            },
            None => {
                assert(rows.filter_map(fu).map_values(g) =~= a0);
                match fp(f) {
                    Some(p) => {
                        assert(rows.filter_map(fp) =~= b0.push(p));
                        assert(b0.push(p).drop_last() =~= b0);
                        if a0.len() > 0 {
                            assert(is_subseq(a0, b0.push(p)));
                        }
                        if forall|k: int|
                            0 <= k < rows.len() && #[trigger] package_of_row(rows[k]) is Some
                                ==> field(rows[k], 3).len() > 0 {
                            assert(package_of_row(rows[rows.len() - 1]) is Some);
                        }
                    },
                    None => {},
                }
            },
        }
        if forall|k: int|
            0 <= k < rows.len() && #[trigger] package_of_row(rows[k]) is Some ==> field(rows[k], 3).len()
                > 0 {
            assert forall|k: int|
                0 <= k < rest.len() && #[trigger] package_of_row(rest[k]) is Some implies field(
                rest[k],
                3,
            ).len() > 0 by {
                assert(rest[k] == rows[k]);
            }
        }
    }
}

/// The upgrades listed in a text are among its packages: read as packages (current version
/// as the version), they are a subsequence of what `spec_parse_packages` lists; and they
/// are exactly those packages when every row taken as a package has a fourth cell (an
/// available version).
pub proof fn lemma_upgrades_within_packages(text: Seq<char>)
    ensures
        is_subseq(
            spec_parse_upgrades(text).map_values(|u: UpgradeView| package_of_upgrade(u)),
            spec_parse_packages(text),
        ),
        (forall|k: int|
            0 <= k < table_rows(text).len() && #[trigger] package_of_row(table_rows(text)[k]) is Some
                ==> field(table_rows(text)[k], 3).len() > 0) ==> spec_parse_upgrades(text).map_values(
            |u: UpgradeView| package_of_upgrade(u),
        ) == spec_parse_packages(text),
{
    lemma_upgrades_within_package_rows(table_rows(text));
}

/// Whether `u` is read from one of `rows` cell by cell in the columns' order: its name is
/// the row's first cell (the Name column), its Id the second, its current version the
/// third, its available version the fourth, and its source the last cell.
pub open spec fn upgrade_from_row(u: UpgradeView, rows: Seq<Seq<Seq<char>>>) -> bool {
    exists|j: int|
        0 <= j < rows.len() && #[trigger] rows[j].len() >= 4 && u.name == rows[j][0] && u.id
            == rows[j][1] && u.current == rows[j][2] && u.available == rows[j][3] && u.source
            == rows[j][rows[j].len() - 1]
}

/// Whether `p` is read from one of `rows` cell by cell in the columns' order: its name is
/// the row's first cell (the Name column), its Id the second, its version the third (empty
/// when the row has none), and its source the last cell.
pub open spec fn package_from_row(p: PackageView, rows: Seq<Seq<Seq<char>>>) -> bool {
    exists|j: int|
        0 <= j < rows.len() && #[trigger] rows[j].len() >= 2 && p.name == rows[j][0] && p.id
            == rows[j][1] && p.version == (if rows[j].len() > 2 {
            rows[j][2]
        } else {
            seq![]
        }) && p.source == rows[j][rows[j].len() - 1]
}

/// Every upgrade listed comes from a row of the table, cell by cell in the columns' order
/// (see `upgrade_from_row`): in particular its name is the Name column, not the Id.
pub proof fn lemma_upgrade_cells(text: Seq<char>)
    ensures
        forall|k: int|
            0 <= k < spec_parse_upgrades(text).len() ==> upgrade_from_row(
                #[trigger] spec_parse_upgrades(text)[k],
                table_rows(text),
            ),
{
    let rows = table_rows(text);
    let ups = spec_parse_upgrades(text);
    let f = |r: Seq<Seq<char>>| upgrade_of_row(r);
    assert forall|k: int| 0 <= k < ups.len() implies upgrade_from_row(#[trigger] ups[k], rows) by {
        let u = ups[k];
        assert(rows.filter_map(f).contains(u));
        rows.lemma_filter_map_contains(f, u);
        let t = choose|t: Seq<Seq<char>>| #[trigger] rows.contains(t) && f(t) == Some(u);
        let j = choose|j: int| 0 <= j < rows.len() && rows[j] == t;
        assert(rows[j].len() >= 4);
    }
}

/// Every package listed comes from a row of the table, cell by cell in the columns' order
/// (see `package_from_row`): in particular its name is the Name column, not the Id.
pub proof fn lemma_package_cells(text: Seq<char>)
    ensures
        forall|k: int|
            0 <= k < spec_parse_packages(text).len() ==> package_from_row(
                #[trigger] spec_parse_packages(text)[k],
                table_rows(text),
            ),
{
    let rows = table_rows(text);
    let ps = spec_parse_packages(text);
    let f = |r: Seq<Seq<char>>| package_of_row(r);
    assert forall|k: int| 0 <= k < ps.len() implies package_from_row(#[trigger] ps[k], rows) by {
        let p = ps[k];
        assert(rows.filter_map(f).contains(p));
        rows.lemma_filter_map_contains(f, p);
        let t = choose|t: Seq<Seq<char>>| #[trigger] rows.contains(t) && f(t) == Some(p);
        let j = choose|j: int| 0 <= j < rows.len() && rows[j] == t;
        assert(rows[j].len() >= 2);
    }
}

/// The command lines of winget operations, argument by argument: each names its operation
/// first and, where it acts on one package, `--id <id> --exact` right after; upgrades run
/// silently; install and uninstall run `--silent` when asked and `--interactive` otherwise;
/// a source is passed (trimmed) only when it is neither blank nor "all"; a search or a
/// listing passes its query (trimmed) only when it is not blank.
pub proof fn lemma_winget_command_lines(id: Seq<char>, source: Seq<char>, silent: bool, query: Seq<char>)
    ensures
        upgrade_package_argv(id).len() == 8 && upgrade_package_argv(id)[0] == "upgrade"@
            && upgrade_package_argv(id)[1] == "--id"@ && upgrade_package_argv(id)[2] == id
            && upgrade_package_argv(id)[3] == "--exact"@ && upgrade_package_argv(id)[4] == "--silent"@,
        upgrade_all_argv()[0] == "upgrade"@ && upgrade_all_argv()[1] == "--all"@
            && upgrade_all_argv()[2] == "--silent"@,
        ({
            let a = install_package_argv(id, source, silent);
            let s = trim(source);
            &&& a[0] == "install"@ && a[1] == "--id"@ && a[2] == id && a[3] == "--exact"@
            &&& a[6] == (if silent { "--silent"@ } else { "--interactive"@ })
            &&& (s.len() > 0 && s != "all"@) ==> (a.len() == 9 && a[7] == "--source"@ && a[8] == s)
            &&& !(s.len() > 0 && s != "all"@) ==> a.len() == 7
        }),
        ({
            let a = uninstall_package_argv(id, silent);
            &&& a.len() == 6 && a[0] == "uninstall"@ && a[1] == "--id"@ && a[2] == id
            &&& a[3] == "--exact"@
            &&& a[5] == (if silent { "--silent"@ } else { "--interactive"@ })
        }),
        trim(query).len() > 0 ==> ({
            let a = search_argv(trim(query), source);
            &&& a[0] == "search"@ && a[1] == "--query"@ && a[2] == trim(query)
        }),
        ({
            let a = list_installed_argv(query);
            &&& a[0] == "list"@
            &&& trim(query).len() > 0 ==> (a.len() == 5 && a[3] == "--query"@ && a[4] == trim(query))
            &&& trim(query).len() == 0 ==> a.len() == 3
        }),
        list_upgrades_argv()[0] == "upgrade"@ && list_upgrades_argv()[1] == "--include-unknown"@,
{
}

} // verus!
