use shimguin::report::add_path_to_error;

#[test]
fn message_names_path_and_error() {
    let m = add_path_to_error(b"No such file or directory (os error 2)", b"/lib/liba.so");
    assert_eq!(
        String::from_utf8(m).unwrap(),
        "path='/lib/liba.so', error=(No such file or directory (os error 2))"
    );
    assert_eq!(add_path_to_error(b"", b""), b"path='', error=()".to_vec());
}
