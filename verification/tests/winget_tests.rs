use prettyget::winget::{
    install_package_args, list_installed_args, packages_outcome, parse_packages, parse_upgrades,
    search_args, uninstall_package_args, upgrade_all_args, upgrade_package_args,
    upgrades_outcome, winget_error,
};

#[test]
fn parses_english_upgrades() {
    let s = "\
Name                            Id                            Version       Available     Source
---------------------------------------------------------------------------------------------------
Windows Terminal                Microsoft.WindowsTerminal     1.18.3181.0   1.19.10302.0  winget
Visual Studio Code              Microsoft.VisualStudioCode    1.88.0        1.89.1        winget
3 upgrades available.";
    let ups = parse_upgrades(s);
    assert_eq!(ups.len(), 2);
    assert_eq!(ups[0].id, "Microsoft.WindowsTerminal");
    assert_eq!(ups[0].available, "1.19.10302.0");
    assert_eq!(ups[0].source, "winget");
}

#[test]
fn parses_spanish_upgrades() {
    let s = "\
Nombre                          Id                            Versión       Disponible    Origen
---------------------------------------------------------------------------------------------------
Windows Terminal                Microsoft.WindowsTerminal     1.18.3181.0   1.19.10302.0  winget
7-Zip                           7zip.7zip                     23.01         24.05         winget
2 actualizaciones disponibles.";
    let ups = parse_upgrades(s);
    assert_eq!(ups.len(), 2);
    assert_eq!(ups[1].id, "7zip.7zip");
    assert_eq!(ups[1].available, "24.05");
}

#[test]
fn parses_search_spanish_with_match() {
    let s = "\
Nombre               Id                        Versión   Coincidencia     Origen
-----------------------------------------------------------------------------------
Mozilla Firefox      Mozilla.Firefox           126.0     Moniker: firefox winget
PowerToys            Microsoft.PowerToys       0.81.1                     winget";
    let pkgs = parse_packages(s);
    assert_eq!(pkgs.len(), 2);
    assert_eq!(pkgs[0].id, "Mozilla.Firefox");
    assert_eq!(pkgs[0].version, "126.0");
    assert_eq!(pkgs[0].source, "winget");
    assert_eq!(pkgs[1].id, "Microsoft.PowerToys");
}

#[test]
fn strips_ansi_and_footer() {
    let s = "\u{1b}[2mNote\u{1b}[0m\nName        Id            Version   Available  Source\n----------------------------------------------------------\nGit         Git.Git       2.44.0    2.45.1     winget\n";
    let ups = parse_upgrades(s);
    assert_eq!(ups.len(), 1);
    assert_eq!(ups[0].id, "Git.Git");
}

#[test]
fn same_table_in_two_languages_gives_same_upgrades() {
    let en = "Name    Id         Version  Available Source\n-------------------------------------------\nGit     Git.Git    2.44.0   2.45.1    winget\n";
    let es = "Nombre  Ide        Versión  Dispon    Origen\n-------------------------------------------\nGit     Git.Git    2.44.0   2.45.1    winget\n";
    let a = parse_upgrades(en);
    let b = parse_upgrades(es);
    assert_eq!(a.len(), 1);
    assert_eq!(b.len(), 1);
    assert_eq!(a[0].name, b[0].name);
    assert_eq!(a[0].id, b[0].id);
    assert_eq!(a[0].current, b[0].current);
    assert_eq!(a[0].available, b[0].available);
    assert_eq!(a[0].source, b[0].source);
    assert_eq!(a[0].current, "2.44.0");
}

#[test]
fn no_separator_means_no_rows() {
    assert_eq!(parse_upgrades("Name Id Version\nGit Git.Git 1.0").len(), 0);
    assert_eq!(parse_upgrades("").len(), 0);
    // a separator on the first line has no header above it
    assert_eq!(parse_upgrades("----------\nGit   Git.Git   1.0   2.0   winget").len(), 0);
}

#[test]
fn single_column_header_gives_no_rows() {
    let s = "Name\n----------\nGit\n";
    assert_eq!(parse_packages(s).len(), 0);
}

#[test]
fn rows_with_spaced_or_missing_ids_are_dropped() {
    let s = "Name   Id        Version  Available Source\n------------------------------------------\nA      x y       1.0      2.0       winget\nB      Some.Id   1.0                winget\nC      Ok.Id     1.0      2.0       winget\n";
    let ups = parse_upgrades(s);
    assert_eq!(ups.len(), 1);
    assert_eq!(ups[0].id, "Ok.Id");
    let pkgs = parse_packages(s);
    assert_eq!(pkgs.len(), 2);
    assert_eq!(pkgs[0].id, "Some.Id");
}

#[test]
fn crlf_lines_and_dash_filler_are_handled() {
    let s = "Name   Id        Version\r\n------------------------\r\nGit    Git.Git   2.0\r\n   ------   \r\n\r\n";
    let pkgs = parse_packages(s);
    assert_eq!(pkgs.len(), 1);
    assert_eq!(pkgs[0].version, "2.0");
    assert_eq!(pkgs[0].source, "2.0");
}

#[test]
fn command_lines() {
    assert_eq!(
        upgrade_package_args("Git.Git"),
        vec![
            "upgrade",
            "--id",
            "Git.Git",
            "--exact",
            "--silent",
            "--accept-source-agreements",
            "--accept-package-agreements",
            "--include-unknown"
        ]
    );
    assert_eq!(upgrade_all_args()[1], "--all");
    assert_eq!(
        install_package_args("Git.Git", " msstore ", false),
        vec![
            "install",
            "--id",
            "Git.Git",
            "--exact",
            "--accept-source-agreements",
            "--accept-package-agreements",
            "--interactive",
            "--source",
            "msstore"
        ]
    );
    assert_eq!(install_package_args("Git.Git", "all", true).len(), 7);
    assert_eq!(install_package_args("Git.Git", "  ", true)[6], "--silent");
    assert_eq!(uninstall_package_args("Git.Git", true).last().unwrap(), "--silent");
    assert!(search_args("   ", "winget").is_none());
    assert_eq!(
        search_args(" firefox ", "winget").unwrap(),
        vec![
            "search",
            "--query",
            "firefox",
            "--accept-source-agreements",
            "--disable-interactivity",
            "--source",
            "winget"
        ]
    );
    assert_eq!(list_installed_args("  ").len(), 3);
    assert_eq!(list_installed_args(" git ")[4], "git");
}

#[test]
fn error_messages_of_failed_listings() {
    assert_eq!(winget_error(b"  boom \n", "ignored"), "boom");
    assert_eq!(winget_error(b"", "  a\nb\nc\nd  "), "a b c");
    assert_eq!(
        winget_error(b"", "   "),
        "winget no devolvió resultados. Comprueba que está instalado y actualizado."
    );
    let r = upgrades_outcome(b"nothing", b"err", false);
    assert_eq!(r.unwrap_err(), "err");
    let r = upgrades_outcome(b"nothing", b"err", true);
    assert_eq!(r.unwrap().len(), 0);
    let table = b"Name  Id       Version\n----------------------\nGit   Git.Git  2.0\n";
    let r = packages_outcome(table, b"err", false);
    assert_eq!(r.unwrap()[0].id, "Git.Git");
}

#[test]
fn upgrades_are_among_the_packages() {
    let s = "\
Name                            Id                            Version       Available     Source
---------------------------------------------------------------------------------------------------
Windows Terminal                Microsoft.WindowsTerminal     1.18.3181.0   1.19.10302.0  winget
Pinned thing                    Some.Pinned                   2.0                         winget
Visual Studio Code              Microsoft.VisualStudioCode    1.88.0        1.89.1        winget
3 upgrades available.";
    let ups = prettyget::winget::parse_upgrades(s);
    let pkgs = prettyget::winget::parse_packages(s);
    assert_eq!(ups.len(), 2);
    assert_eq!(pkgs.len(), 3);
    let as_pkgs: Vec<(String, String, String, String)> =
        ups.iter().map(|u| (u.name.clone(), u.id.clone(), u.current.clone(), u.source.clone())).collect();
    assert_eq!(as_pkgs[0], (pkgs[0].name.clone(), pkgs[0].id.clone(), pkgs[0].version.clone(), pkgs[0].source.clone()));
    assert_eq!(as_pkgs[1], (pkgs[2].name.clone(), pkgs[2].id.clone(), pkgs[2].version.clone(), pkgs[2].source.clone()));
}
