use alttab::ipc::{is_client_mode, is_show_request, socket_path};

#[test]
fn socket_lives_in_runtime_dir() {
    assert_eq!(socket_path(Some("/run/user/1000")), "/run/user/1000/alttab.sock");
    assert_eq!(socket_path(None), "/tmp/alttab.sock");
}

#[test]
fn show_requests() {
    assert!(is_show_request(b"show"));
    assert!(is_show_request(b"show\n"));
    assert!(is_show_request(b"showme"));
    assert!(!is_show_request(b"sho"));
    assert!(!is_show_request(b"hide"));
    assert!(!is_show_request(b""));
    assert!(!is_show_request(&[0x73, 0x68, 0x6f, 0x77, 0xff]));
}

#[test]
fn client_mode_flag() {
    let args = vec!["alttab".to_string(), "--show".to_string()];
    assert!(is_client_mode(&args));
    let args = vec!["alttab".to_string()];
    assert!(!is_client_mode(&args));
    let args = vec!["alttab".to_string(), "--other".to_string(), "--show".to_string()];
    assert!(!is_client_mode(&args));
}
