use prettyget::system::{elevated_from_output, is_elevated_args, relaunch_args};

#[test]
fn elevation_answer() {
    assert!(elevated_from_output(b"True\r\n"));
    assert!(elevated_from_output(b"  true "));
    assert!(!elevated_from_output(b"False\r\n"));
    assert!(!elevated_from_output(b""));
    assert!(!elevated_from_output(b"truely"));
    assert_eq!(is_elevated_args().len(), 3);
}

#[test]
fn relaunch_quotes_the_path() {
    let a = relaunch_args("C:\\Users\\O'Neil\\app.exe");
    assert_eq!(a[..4], ["-NoProfile", "-WindowStyle", "Hidden", "-Command"]);
    assert_eq!(a[4], "Start-Process -FilePath 'C:\\Users\\O''Neil\\app.exe' -Verb RunAs");
}
