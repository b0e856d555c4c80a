use prettyget::remote::{
    host_allowed, result_or_failure, user_allowed, validate_args, PsRemotingExecutor,
    RemoteHost, RemoteResult,
};

#[test]
fn accepts_normal_winget_args() {
    assert!(validate_args(&["upgrade", "--all", "--silent"]).is_ok());
    assert!(validate_args(&["install", "--id", "Mozilla.Firefox", "--exact"]).is_ok());
    assert!(validate_args(&["upgrade", "--id", "Microsoft.VisualStudioCode"]).is_ok());
}

#[test]
fn rejects_scriptblock_breakout() {
    assert!(validate_args(&["upgrade", "}\nRemove-Item C:\\ -Recurse\n{"]).is_err());
    assert!(validate_args(&["}"]).is_err());
    assert!(validate_args(&["{"]).is_err());
    assert!(validate_args(&["upgrade\nWrite-Host pwned"]).is_err());
    assert!(validate_args(&["$(whoami)"]).is_err());
    assert!(validate_args(&["a;b"]).is_err());
    assert!(validate_args(&["a b"]).is_err());
    assert!(validate_args(&[""]).is_err());
}

#[test]
fn validates_hosts_and_users() {
    assert!(host_allowed("pc-01"));
    assert!(host_allowed("server.local"));
    assert!(host_allowed("192.168.1.10"));
    assert!(!host_allowed(""));
    assert!(!host_allowed("pc-01'; Remove-Item C:\\ #"));
    assert!(!host_allowed("host with spaces"));

    assert!(user_allowed("DOMINIO\\usuario"));
    assert!(user_allowed("user@example.com"));
    assert!(!user_allowed("user'; whoami #"));
    assert!(!user_allowed(""));
}

#[test]
fn error_messages_name_the_refused_character() {
    assert_eq!(validate_args(&[""]).unwrap_err(), "Argumento de winget vacío.");
    assert_eq!(
        validate_args(&["ok", "a;b"]).unwrap_err(),
        "Argumento de winget no permitido: el carácter ';' podría romper el script remoto."
    );
    assert_eq!(
        validate_args(&["x\ny"]).unwrap_err(),
        "Argumento de winget no permitido: el carácter '\\n' podría romper el script remoto."
    );
}

#[test]
fn host_length_limit() {
    let long = "a".repeat(253);
    assert!(host_allowed(&long));
    let longer = "a".repeat(254);
    assert!(!host_allowed(&longer));
    assert!(user_allowed(&"u".repeat(256)));
    assert!(!user_allowed(&"u".repeat(257)));
}

#[test]
fn remote_scripts() {
    let ex = PsRemotingExecutor;
    let h = RemoteHost { host: "pc-01".into(), user: None };
    assert_eq!(
        ex.script_for(&h, &["upgrade", "--all"]).unwrap(),
        "Invoke-Command -ComputerName 'pc-01' -ScriptBlock { winget upgrade --all }"
    );
    let hu = RemoteHost { host: "pc-01".into(), user: Some("DOM\\me".into()) };
    assert_eq!(
        ex.script_for(&hu, &["list"]).unwrap(),
        "$c = Get-Credential -UserName 'DOM\\me' -Message 'PrettyGet remote'; Invoke-Command -ComputerName 'pc-01' -ScriptBlock { winget list } -Credential $c"
    );
    let bad_host = RemoteHost { host: "a b".into(), user: None };
    assert_eq!(ex.script_for(&bad_host, &["list"]).unwrap_err(), "Nombre de host no válido: \"a b\"");
    let bad_user = RemoteHost { host: "pc".into(), user: Some("x'y".into()) };
    assert_eq!(
        ex.script_for(&bad_user, &["list"]).unwrap_err(),
        "Nombre de usuario no válido: \"x'y\""
    );
    assert_eq!(ex.script_for(&bad_user, &["{"]).unwrap_err().starts_with("Argumento"), true);
}

#[test]
fn failures_become_results_with_code_minus_one() {
    let h = RemoteHost { host: "pc".into(), user: None };
    let r = result_or_failure(&h, Err("no route".into()));
    assert_eq!(r.host, "pc");
    assert_eq!(r.code, -1);
    assert_eq!(r.stdout, "");
    assert_eq!(r.stderr, "no route");
    let ok = RemoteResult { host: "pc".into(), code: 0, stdout: "done".into(), stderr: String::new() };
    assert_eq!(result_or_failure(&h, Ok(ok)).stdout, "done");
    let ex = PsRemotingExecutor;
    let res = ex.result_of(&h, None, b"out", b"err");
    assert_eq!(res.code, -1);
    assert_eq!(res.stdout, "out");
    assert_eq!(ex.result_of(&h, Some(3), b"", b"").code, 3);
}
