use zip_unpacker::args::input_parser;
use zip_unpacker::args_parser;

#[test]
fn input_parser_parse_src_file_path() {
    let args = vec![
        "path/to/exe".to_owned(),
        "L:/tests/test1.zip".to_owned(),
        "X:/tests/test1".to_owned(),
    ];

    match input_parser::parse_args(&args) {
        Err(_) => assert!(false, "You shouldn't be there."),
        Ok(args) => {
            assert_eq!(args.in_file, "L:/tests/test1.zip".to_owned());
            assert_eq!(args.out_folder, "X:/tests/test1".to_owned());
        }
    }

    let args = vec!["path/to/exe".to_owned(), "L:/tests/test1.zip".to_owned()];

    match input_parser::parse_args(&args) {
        Err(err) => assert_eq!(err, "Not enough actual parameters."),
        Ok(_) => assert!(false, "You shouldn't be there."),
    }
}

#[test]
fn args_parser_parse_src_file_path() {
    let args = vec!["path/to/exe".to_owned(), "L:/tests/test1.zip".to_owned()];

    match args_parser::parse_args(&args) {
        None => assert!(false, "You shouldn't be there."),
        Some(args) => assert_eq!(args.path, "L:/tests/test1.zip".to_owned()),
    }
}

#[test]
fn args_parser_without_path() {
    let args = vec!["path/to/exe".to_owned()];
    assert!(args_parser::parse_args(&args).is_none());
}
