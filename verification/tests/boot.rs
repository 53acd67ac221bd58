use jampgame_proxy::syscall::read_engine_string;
use jampgame_proxy::{engine_version_matches, original_library_path};

#[test]
fn engine_string_stops_at_nul() {
    assert_eq!(read_engine_string(b"base\0junk"), b"base");
    assert_eq!(read_engine_string(b"\0abc"), b"");
    assert_eq!(read_engine_string(b"nonul"), b"nonul");
    assert_eq!(read_engine_string(b""), b"");
}

#[test]
fn version_gate_accepts_only_the_pristine_engine() {
    assert!(engine_version_matches(b"JAmp: v1.0.1.1 linux-i386 Nov 10 2003"));
    assert!(engine_version_matches(b"JAmp: v1.0.1.1 linux-i386 Nov 10 2003 extra"));
    assert!(!engine_version_matches(b"JAmp: v1.0.1.1 linux-i386 Nov 10 200"));
    assert!(!engine_version_matches(b"JAmp: v1.0.1.0 linux-i386 Nov 10 2003"));
    assert!(!engine_version_matches(b""));
}

#[test]
fn library_path_defaults_to_base() {
    assert_eq!(original_library_path(""), b"base/jampgame_original.so".to_vec());
    assert_eq!(original_library_path("  \t"), b"base/jampgame_original.so".to_vec());
    assert_eq!(original_library_path(" japlus "), b"japlus/jampgame_original.so".to_vec());
}
