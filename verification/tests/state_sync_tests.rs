use prettyget::state_sync::{parse_winget_export, to_winget_export, PackageEntry, WingetState, WingetStateSync};

#[test]
fn reads_winget_export_documents() {
    let raw = r#"{"Sources":[{"Packages":[{"PackageIdentifier":"Git.Git","Version":"2.44.0"},{"Version":"1"},{"PackageIdentifier":"7zip.7zip"}],"SourceDetails":{"Name":"winget"}},{"Packages":[{"PackageIdentifier":"X.Y"}]}]}"#;
    let st = parse_winget_export(raw, 42);
    assert_eq!(st.schema, 1);
    assert_eq!(st.exported_at, 42);
    assert_eq!(st.packages.len(), 3);
    assert_eq!(st.packages[0].id, "Git.Git");
    assert_eq!(st.packages[0].version.as_deref(), Some("2.44.0"));
    assert_eq!(st.packages[0].source.as_deref(), Some("winget"));
    assert_eq!(st.packages[1].id, "7zip.7zip");
    assert_eq!(st.packages[1].version, None);
    assert_eq!(st.packages[2].source, None);
    assert_eq!(parse_winget_export("not json", 1).packages.len(), 0);
    assert_eq!(parse_winget_export("{\"Sources\":3}", 1).packages.len(), 0);
}

#[test]
fn writes_winget_import_documents() {
    let st = WingetState {
        schema: 1,
        exported_at: 0,
        packages: vec![
            PackageEntry { id: "Git.Git".into(), version: Some("1".into()), source: None },
            PackageEntry { id: "A\"B".into(), version: None, source: None },
        ],
    };
    let text = to_winget_export(&st);
    assert_eq!(
        text,
        r#"{"$schema":"https://aka.ms/winget-packages.schema.2.0.json","Sources":[{"Packages":[{"PackageIdentifier":"Git.Git"},{"PackageIdentifier":"A\"B"}],"SourceDetails":{"Argument":"https://cdn.winget.microsoft.com/cache","Identifier":"Microsoft.Winget.Source_8wekyb3d8bbwe","Name":"winget","Type":"Microsoft.PreIndexed.Package"}}],"WinGetVersion":"1.0"}"#
    );
    let back = parse_winget_export(&text, 7);
    assert_eq!(back.packages.len(), 2);
    assert_eq!(back.packages[1].id, "A\"B");
    assert_eq!(back.packages[1].source.as_deref(), Some("winget"));
}

#[test]
fn export_and_import_arguments() {
    let s = WingetStateSync;
    assert_eq!(
        s.export_args("f.json"),
        vec!["export", "-o", "f.json", "--accept-source-agreements", "--disable-interactivity"]
    );
    assert_eq!(s.import_args("f.json", true).last().unwrap(), "--silent");
    assert_eq!(s.import_args("f.json", false).len(), 6);
}

#[test]
fn import_document_reads_back_as_its_ids() {
    let st = WingetState {
        schema: 1,
        exported_at: 0,
        packages: vec![
            PackageEntry { id: "B.B".into(), version: Some("9".into()), source: Some("msstore".into()) },
            PackageEntry { id: "A.A".into(), version: None, source: None },
        ],
    };
    let back = parse_winget_export(&to_winget_export(&st), 1);
    let ids: Vec<&str> = back.packages.iter().map(|p| p.id.as_str()).collect();
    assert_eq!(ids, vec!["B.B", "A.A"]);
    assert!(back.packages.iter().all(|p| p.version.is_none() && p.source.as_deref() == Some("winget")));
}
