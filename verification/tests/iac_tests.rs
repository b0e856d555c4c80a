use prettyget::iac::{sanitize_id, Action, DefaultIac, IacGenerator, Selection};

#[test]
fn powershell_has_one_line_per_package() {
    let sel = Selection {
        action: Action::Install,
        packages: vec!["Google.Chrome".into(), "7zip.7zip".into()],
        silent: true,
    };
    let ps = DefaultIac.powershell(&sel);
    assert!(ps.contains("winget install --id Google.Chrome"));
    assert!(ps.contains("winget install --id 7zip.7zip"));
    assert!(ps.contains("--silent"));
}

#[test]
fn ansible_is_valid_ish_yaml() {
    let sel = Selection {
        action: Action::Upgrade,
        packages: vec!["Microsoft.PowerToys".into()],
        silent: false,
    };
    let y = DefaultIac.ansible(&sel);
    assert!(y.contains("hosts: windows"));
    assert!(y.contains("winget upgrade --id Microsoft.PowerToys"));
}

#[test]
fn powershell_exact_text() {
    let sel = Selection { action: Action::Uninstall, packages: vec!["A.B".into()], silent: false };
    let ps = DefaultIac.powershell(&sel);
    assert_eq!(
        ps,
        "# Generado por PrettyGet Pro — IaC\n#Requires -RunAsAdministrator\n$ErrorActionPreference = 'Continue'\n\nWrite-Host 'PrettyGet: uninstall A.B'\nwinget uninstall --id A.B --exact --accept-source-agreements\n\n"
    );
}

#[test]
fn ids_are_sanitized_in_scripts() {
    assert_eq!(sanitize_id("Evil'; rm -rf /"), "Evilrm-rf");
    assert_eq!(sanitize_id("Notepad++.Notepad++"), "Notepad++.Notepad++");
    let sel = Selection { action: Action::Install, packages: vec!["x'y".into()], silent: true };
    let ps = DefaultIac.powershell(&sel);
    assert!(ps.contains("winget install --id xy --exact --silent"));
    let y = DefaultIac.ansible(&sel);
    assert!(y.contains("    - name: winget install xy\n"));
    assert!(!y.contains("x'y"));
}

#[test]
fn empty_selection_gives_only_the_header() {
    let sel = Selection { action: Action::Install, packages: vec![], silent: true };
    assert_eq!(
        DefaultIac.ansible(&sel),
        "# Generado por PrettyGet Pro — IaC\n- name: PrettyGet winget deployment\n  hosts: windows\n  gather_facts: false\n  tasks:\n"
    );
    assert_eq!(Action::Upgrade.winget_verb(), "upgrade");
}
