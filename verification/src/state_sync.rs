//! State sync: exporting the list of installed packages and importing it elsewhere. winget's
//! own `export` / `import` write and read a JSON document; the app reads that document into
//! its own schema (which it can also write as YAML) and writes it back for `import`.

use vstd::prelude::*;
use crate::json::{
    get_member, json_get, json_items, member_from, json_parse, json_str, json_text, json_to_string,
    parse_json, JsonValue,
};
use crate::text::{push_arg, strings_view, to_string_of};

verus! {

/// A package of the exported state.
#[derive(Clone, Debug)]
pub struct PackageEntry {
    pub id: String,
    pub version: Option<String>,
    pub source: Option<String>,
}

/// The exported state of the machine.
#[derive(Clone, Debug)]
pub struct WingetState {
    pub schema: u32,
    pub exported_at: i64,
    pub packages: Vec<PackageEntry>,
}

/// The content of a `PackageEntry`.
pub struct PackageEntryView {
    pub id: Seq<char>,
    pub version: Option<Seq<char>>,
    pub source: Option<Seq<char>>,
}

/// The content of a `WingetState`.
pub struct WingetStateView {
    pub schema: u32,
    pub exported_at: i64,
    pub packages: Seq<PackageEntryView>,
}

/// The text of an optional string.
pub open spec fn opt_view(o: Option<String>) -> Option<Seq<char>> {
    match o {
        Some(s) => Some(s@),
        None => None,
    }
}

impl View for PackageEntry {
    type V = PackageEntryView;

    open spec fn view(&self) -> PackageEntryView {
        PackageEntryView { id: self.id@, version: opt_view(self.version), source: opt_view(self.source) }
    }
}

/// The views of a list of package entries.
pub open spec fn entries_view(v: Seq<PackageEntry>) -> Seq<PackageEntryView> {
    v.map_values(|p: PackageEntry| p@)
}

impl View for WingetState {
    type V = WingetStateView;

    open spec fn view(&self) -> WingetStateView {
        WingetStateView {
            schema: self.schema,
            exported_at: self.exported_at,
            packages: entries_view(self.packages@),
        }
    }
}

/// The state sync that runs the system's winget.
#[derive(Debug)]
pub struct WingetStateSync;

impl WingetStateSync {
    /// The arguments of `winget` that export the installed packages to `file`.
    pub fn export_args(&self, file: &str) -> (r: Vec<String>)
        ensures
            strings_view(r@) == seq![
                "export"@,
                "-o"@,
                file@,
                "--accept-source-agreements"@,
                "--disable-interactivity"@,
            ],
    {
        let mut args: Vec<String> = Vec::new();
        push_arg(&mut args, "export");
        push_arg(&mut args, "-o");
        push_arg(&mut args, file);
        push_arg(&mut args, "--accept-source-agreements");
        push_arg(&mut args, "--disable-interactivity");
        assert(strings_view(args@) =~= seq![
            "export"@,
            "-o"@,
            file@,
            "--accept-source-agreements"@,
            "--disable-interactivity"@,
        ]);
        args
    }

    /// The arguments of `winget` that install the packages listed in `file`, skipping those
    /// that cannot be found, silently when asked.
    pub fn import_args(&self, file: &str, silent: bool) -> (r: Vec<String>)
        ensures
            strings_view(r@) == seq![
                "import"@,
                "-i"@,
                file@,
                "--accept-source-agreements"@,
                "--accept-package-agreements"@,
                "--ignore-unavailable"@,
            ] + if silent {
                seq!["--silent"@]
            } else {
                seq![]
            },
    {
        let mut args: Vec<String> = Vec::new();
        push_arg(&mut args, "import");
        push_arg(&mut args, "-i");
        push_arg(&mut args, file);
        push_arg(&mut args, "--accept-source-agreements");
        push_arg(&mut args, "--accept-package-agreements");
        push_arg(&mut args, "--ignore-unavailable");
        if silent {
            push_arg(&mut args, "--silent");
        }
        assert(strings_view(args@) =~= seq![
            "import"@,
            "-i"@,
            file@,
            "--accept-source-agreements"@,
            "--accept-package-agreements"@,
            "--ignore-unavailable"@,
        ] + if silent {
            seq!["--silent"@]
        } else {
            seq![]
        });
        args
    }
}

/// The name of a source of a `winget export` document (`SourceDetails.Name`), if it is a
/// string.
pub open spec fn source_name(src: JsonValue) -> Option<Seq<char>> {
    match json_get(src, "SourceDetails"@) {
        Some(d) => json_str(json_get(d, "Name"@)),
        None => None,
    }
}

/// A package of a `winget export` document as an entry, when its `PackageIdentifier` is a
/// string: its `Version` if that is a string, and the name of its source.
pub open spec fn entry_of(p: JsonValue, source: Option<Seq<char>>) -> Option<PackageEntryView> {
    match json_str(json_get(p, "PackageIdentifier"@)) {
        Some(id) => Some(
            PackageEntryView { id, version: json_str(json_get(p, "Version"@)), source },
        ),
        None => None,
    }
}

/// The entries of one source of a `winget export` document, in order.
pub open spec fn source_entries(src: JsonValue) -> Seq<PackageEntryView> {
    json_items(json_get(src, "Packages"@)).filter_map(
        |p: JsonValue| entry_of(p, source_name(src)),
    )
}

/// The entries of a `winget export` document: those of each of its `Sources`, in order;
/// none when the text is not JSON or has no list of sources.
pub open spec fn export_entries(doc: Option<JsonValue>) -> Seq<PackageEntryView> {
    match doc {
        Some(root) => json_items(json_get(root, "Sources"@)).map_values(
            |s: JsonValue| source_entries(s),
        ).flatten(),
        None => seq![],
    }
}

/// A copy of an optional string.
fn copy_opt(o: &Option<String>) -> (r: Option<String>)
    ensures
        opt_view(r) == opt_view(*o),
{
    match o {
        Some(s) => Some(to_string_of(s.as_str())),
        None => None,
    }
}

/// The text of a JSON member when it is a string.
fn member_str(v: &JsonValue, key: &str) -> (r: Option<String>)
    ensures
        opt_view(r) == json_str(json_get(*v, key@)),
{
    match get_member(v, key) {
        Some(JsonValue::Str(s)) => Some(to_string_of(s.as_str())),
        _ => None,
    }
}

/// The name of a source of a `winget export` document.
fn source_name_of(src: &JsonValue) -> (r: Option<String>)
    ensures
        opt_view(r) == source_name(*src),
{
    match get_member(src, "SourceDetails") {
        Some(d) => member_str(d, "Name"),
        None => None,
    }
}

/// The entries of one source of a `winget export` document.
fn entries_of_source(src: &JsonValue) -> (r: Vec<PackageEntry>)
    ensures
        entries_view(r@) == source_entries(*src),
{
    let name = source_name_of(src);
    let ghost pick = |p: JsonValue| entry_of(p, source_name(*src));
    let mut out: Vec<PackageEntry> = Vec::new();
    match get_member(src, "Packages") {
        Some(JsonValue::Array(pkgs)) => {
            let ghost items = pkgs@;
            assert(items == json_items(json_get(*src, "Packages"@)));
            let mut i: usize = 0;
            while i < pkgs.len()
                invariant
                    i <= pkgs@.len(),
                    items == pkgs@,
                    items == json_items(json_get(*src, "Packages"@)),
                    opt_view(name) == source_name(*src),
                    pick == (|p: JsonValue| entry_of(p, source_name(*src))),
                    entries_view(out@) == items.take(i as int).filter_map(pick),
                decreases pkgs@.len() - i,
            {
                proof {
                    items.lemma_filter_map_take_succ(pick, i as int);
                }
                let p = &pkgs[i];
                match member_str(p, "PackageIdentifier") {
                    Some(id) => {
                        let entry = PackageEntry {
                            id,
                            version: member_str(p, "Version"),
                            source: copy_opt(&name),
                        };
                        let ghost before = entries_view(out@);
                        out.push(entry);
                        assert(entries_view(out@) =~= before + seq![entry@]);
                    },
                    None => {},
                }
                i = i + 1;
            }
            assert(items.take(pkgs@.len() as int) =~= items);
            out
        },
        _ => {
            assert(entries_view(out@) =~= source_entries(*src));
            out
        },
    }
}

/// Reads the document written by `winget export` into the app's schema (version 1), with
/// the time of the export: every package whose `PackageIdentifier` is a string, source by
/// source, in order; no package when the text is not such a document.
pub fn parse_winget_export(raw: &str, exported_at: i64) -> (r: WingetState)
    ensures
        r@ == (WingetStateView { schema: 1, exported_at, packages: export_entries(json_parse(raw@)) }),
{
    let mut packages: Vec<PackageEntry> = Vec::new();
    let doc = parse_json(raw);
    match &doc {
        Some(root) => {
            match get_member(root, "Sources") {
                Some(JsonValue::Array(sources)) => {
                    let ghost f = |s: JsonValue| source_entries(s);
                    let ghost items = sources@;
                    let mut i: usize = 0;
                    while i < sources.len()
                        invariant
                            i <= sources@.len(),
                            items == sources@,
                            f == (|s: JsonValue| source_entries(s)),
                            entries_view(packages@) == items.take(i as int).map_values(f).flatten(),
                        decreases sources@.len() - i,
                    {
                        let mut more = entries_of_source(&sources[i]);
                        let ghost before = entries_view(packages@);
                        let ghost added = entries_view(more@);
                        packages.append(&mut more);
                        assert(entries_view(packages@) =~= before + added);
                        assert(items.take(i + 1).map_values(f) =~= items.take(i as int).map_values(
                            f,
                        ).push(f(items[i as int])));
                        proof {
                            items.take(i as int).map_values(f).lemma_flatten_push(f(items[i as int]));
                        }
                        i = i + 1;
                    }
                    assert(items.take(sources@.len() as int) =~= items);
                },
                _ => {
                    assert(entries_view(packages@) =~= export_entries(doc));
                },
            }
        },
        None => {
            assert(entries_view(packages@) =~= export_entries(doc));
        },
    }
    WingetState { schema: 1, exported_at, packages }
}

/// Whether `v` is the JSON string `s`.
pub open spec fn is_str(v: JsonValue, s: Seq<char>) -> bool {
    match v {
        JsonValue::Str(x) => x@ == s,
        _ => false,
    }
}

/// Whether member `m` is named `key` and holds the string `s`.
pub open spec fn member_is_str(m: (String, JsonValue), key: Seq<char>, s: Seq<char>) -> bool {
    m.0@ == key && is_str(m.1, s)
}

/// Whether `v` is `{"PackageIdentifier": id}`.
pub open spec fn is_package_object(v: JsonValue, id: Seq<char>) -> bool {
    match v {
        JsonValue::Object(ms) => ms@.len() == 1 && member_is_str(ms@[0], "PackageIdentifier"@, id),
        _ => false,
    }
}

/// Whether `v` describes the winget community source.
pub open spec fn is_winget_source_details(v: JsonValue) -> bool {
    match v {
        JsonValue::Object(ms) => ms@.len() == 4
            && member_is_str(ms@[0], "Argument"@, "https://cdn.winget.microsoft.com/cache"@)
            && member_is_str(ms@[1], "Identifier"@, "Microsoft.Winget.Source_8wekyb3d8bbwe"@)
            && member_is_str(ms@[2], "Name"@, "winget"@)
            && member_is_str(ms@[3], "Type"@, "Microsoft.PreIndexed.Package"@),
        _ => false,
    }
}

/// Whether `v` is the winget source listing the packages `ids`, in order.
pub open spec fn is_import_source(v: JsonValue, ids: Seq<Seq<char>>) -> bool {
    match v {
        JsonValue::Object(ms) => ms@.len() == 2 && ms@[0].0@ == "Packages"@ && match ms@[0].1 {
            JsonValue::Array(ps) => ps@.len() == ids.len() && forall|i: int|
                0 <= i < ids.len() ==> is_package_object(#[trigger] ps@[i], ids[i]),
            _ => false,
        } && ms@[1].0@ == "SourceDetails"@ && is_winget_source_details(ms@[1].1),
        _ => false,
    }
}

/// Whether `doc` is the document that `winget import` reads for the packages `ids`: the
/// packages schema 2.0, and one source, winget's, listing the Ids in order.
pub open spec fn is_import_document(doc: JsonValue, ids: Seq<Seq<char>>) -> bool {
    match doc {
        JsonValue::Object(ms) => ms@.len() == 3
            && member_is_str(ms@[0], "$schema"@, "https://aka.ms/winget-packages.schema.2.0.json"@)
            && member_is_str(ms@[1], "WinGetVersion"@, "1.0"@)
            && ms@[2].0@ == "Sources"@ && match ms@[2].1 {
            JsonValue::Array(srcs) => srcs@.len() == 1 && is_import_source(srcs@[0], ids),
            _ => false,
        },
        _ => false,
    }
}

/// The Ids of the packages of a state.
pub open spec fn state_ids(state: WingetStateView) -> Seq<Seq<char>> {
    state.packages.map_values(|p: PackageEntryView| p.id)
}

/// A member named `key` holding the string `value`.
fn str_member(key: &str, value: &str) -> (r: (String, JsonValue))
    ensures
        member_is_str(r, key@, value@),
{
    (to_string_of(key), JsonValue::Str(to_string_of(value)))
}

/// The document that `winget import` reads to install the packages of `state`.
pub fn import_document(state: &WingetState) -> (r: JsonValue)
    ensures
        is_import_document(r, state_ids(state@)),
{
    let ghost ids = state_ids(state@);
    let mut packages: Vec<JsonValue> = Vec::new();
    let mut i: usize = 0;
    while i < state.packages.len()
        invariant
            i <= state.packages@.len(),
            ids == state_ids(state@),
            packages@.len() == i,
            forall|j: int| 0 <= j < i ==> is_package_object(#[trigger] packages@[j], ids[j]),
        decreases state.packages@.len() - i,
    {
        let mut members: Vec<(String, JsonValue)> = Vec::new();
        members.push(str_member("PackageIdentifier", state.packages[i].id.as_str()));
        packages.push(JsonValue::Object(members));
        i = i + 1;
    }
    let mut details: Vec<(String, JsonValue)> = Vec::new();
    details.push(str_member("Argument", "https://cdn.winget.microsoft.com/cache"));
    details.push(str_member("Identifier", "Microsoft.Winget.Source_8wekyb3d8bbwe"));
    details.push(str_member("Name", "winget"));
    details.push(str_member("Type", "Microsoft.PreIndexed.Package"));
    let mut source: Vec<(String, JsonValue)> = Vec::new();
    source.push((to_string_of("Packages"), JsonValue::Array(packages)));
    source.push((to_string_of("SourceDetails"), JsonValue::Object(details)));
    let mut sources: Vec<JsonValue> = Vec::new();
    sources.push(JsonValue::Object(source));
    let mut doc: Vec<(String, JsonValue)> = Vec::new();
    doc.push(str_member("$schema", "https://aka.ms/winget-packages.schema.2.0.json"));
    doc.push(str_member("WinGetVersion", "1.0"));
    doc.push((to_string_of("Sources"), JsonValue::Array(sources)));
    JsonValue::Object(doc)
}

/// The text of the document that `winget import` reads to install the packages of `state`.
pub fn to_winget_export(state: &WingetState) -> (r: String)
    ensures
        exists|doc: JsonValue| is_import_document(doc, state_ids(state@)) && r@ == json_text(doc),
{
    let doc = import_document(state);
    json_to_string(&doc)
}

/// The entry that the import document's source gives for the Id `id`.
pub open spec fn imported_entry(id: Seq<char>) -> PackageEntryView {
    PackageEntryView { id, version: None, source: Some("winget"@) }
}

/// Packages each read as the entry of an Id give those entries, in order.
proof fn lemma_all_entries(ps: Seq<JsonValue>, ids: Seq<Seq<char>>, src: Option<Seq<char>>)
    requires
        ps.len() == ids.len(),
        forall|i: int| 0 <= i < ps.len() ==> #[trigger] entry_of(ps[i], src) == Some(
            PackageEntryView { id: ids[i], version: None, source: src },
        ),
    ensures
        ps.filter_map(|p: JsonValue| entry_of(p, src)) == ids.map_values(
            |id: Seq<char>| PackageEntryView { id, version: None, source: src },
        ),
    decreases ps.len(),
{
    let f = |p: JsonValue| entry_of(p, src);
    let g = |id: Seq<char>| PackageEntryView { id, version: None, source: src };
    if ps.len() == 0 {
        assert(ids.map_values(g) =~= Seq::<PackageEntryView>::empty());
    } else {
        lemma_all_entries(ps.drop_last(), ids.drop_last(), src);
        assert(f(ps.last()) == Some(g(ids.last())));
        assert(ids.map_values(g) =~= ids.drop_last().map_values(g) + seq![g(ids.last())]);
    }
}

/// Reading back the document written for `winget import` gives one entry per Id, in order,
/// each from the source "winget" and without a version. (What reaches the reader is the
/// text `serde_json` wrote for the document, parsed again by `serde_json`; that this gives
/// the document back is not stated here.)
pub proof fn lemma_import_document_reads_back(doc: JsonValue, ids: Seq<Seq<char>>)
    requires
        is_import_document(doc, ids),
    ensures
        export_entries(Some(doc)) == ids.map_values(|id: Seq<char>| imported_entry(id)),
{
    reveal_strlit("$schema");
    reveal_strlit("WinGetVersion");
    reveal_strlit("Sources");
    reveal_strlit("Packages");
    reveal_strlit("SourceDetails");
    reveal_strlit("Argument");
    reveal_strlit("Identifier");
    reveal_strlit("Name");
    reveal_strlit("Type");
    reveal_strlit("PackageIdentifier");
    reveal_strlit("Version");
    reveal_strlit("winget");
    let ms = match doc {
        JsonValue::Object(ms) => ms@,
        _ => seq![],
    };
    assert(ms[0].0@ != "Sources"@) by {
        assert(ms[0].0@[0] != "Sources"@[0]);
    }
    assert(ms[1].0@ != "Sources"@) by {
        assert(ms[1].0@[0] != "Sources"@[0]);
    }
    let srcs = match ms[2].1 {
        JsonValue::Array(a) => a@,
        _ => seq![],
    };
    assert(member_from(ms, "Sources"@, 2) == Some(ms[2].1));
    assert(member_from(ms, "Sources"@, 1) == Some(ms[2].1));
    assert(member_from(ms, "Sources"@, 0) == Some(ms[2].1));
    assert(json_get(doc, "Sources"@) == Some(ms[2].1));
    let src = srcs[0];
    let sm = match src {
        JsonValue::Object(sm) => sm@,
        _ => seq![],
    };
    let ps = match sm[0].1 {
        JsonValue::Array(a) => a@,
        _ => seq![],
    };
    assert(json_get(src, "Packages"@) == Some(sm[0].1));
    assert(sm[0].0@ != "SourceDetails"@) by {
        assert(sm[0].0@[0] != "SourceDetails"@[0]);
    }
    assert(member_from(sm, "SourceDetails"@, 1) == Some(sm[1].1));
    assert(member_from(sm, "SourceDetails"@, 0) == Some(sm[1].1));
    assert(json_get(src, "SourceDetails"@) == Some(sm[1].1));
    let dm = match sm[1].1 {
        JsonValue::Object(dm) => dm@,
        _ => seq![],
    };
    assert(dm[0].0@ != "Name"@) by {
        assert(dm[0].0@[0] != "Name"@[0]);
    }
    assert(dm[1].0@ != "Name"@) by {
        assert(dm[1].0@[0] != "Name"@[0]);
    }
    assert(member_from(dm, "Name"@, 2) == Some(dm[2].1));
    assert(member_from(dm, "Name"@, 1) == Some(dm[2].1));
    assert(member_from(dm, "Name"@, 0) == Some(dm[2].1));
    assert(json_get(sm[1].1, "Name"@) == Some(dm[2].1));
    assert(source_name(src) == Some("winget"@));
    assert forall|i: int| 0 <= i < ps.len() implies #[trigger] entry_of(ps[i], Some("winget"@)) == Some(
        PackageEntryView { id: ids[i], version: None, source: Some("winget"@) },
    ) by {
        assert(is_package_object(ps[i], ids[i]));
        let pm = match ps[i] {
            JsonValue::Object(pm) => pm@,
            _ => seq![],
        };
        assert(json_get(ps[i], "PackageIdentifier"@) == Some(pm[0].1));
        assert(pm[0].0@ != "Version"@) by {
            assert(pm[0].0@[0] != "Version"@[0]);
        }
        assert(json_get(ps[i], "Version"@) == member_from(pm, "Version"@, 1));
        assert(member_from(pm, "Version"@, 1) is None);
    }
    lemma_all_entries(ps, ids, Some("winget"@));
    assert(source_entries(src) == ps.filter_map(|p: JsonValue| entry_of(p, Some("winget"@))));
    let f = |s: JsonValue| source_entries(s);
    assert(srcs.map_values(f) =~= seq![source_entries(src)]);
    seq![source_entries(src)].lemma_flatten_singleton();
    assert(ids.map_values(|id: Seq<char>| imported_entry(id)) =~= ids.map_values(
        |id: Seq<char>| PackageEntryView { id, version: None, source: Some("winget"@) },
    ));
}

} // verus!
