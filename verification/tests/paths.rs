use resource_downloader::paths::extract_name;

#[test]
fn test_extract_name() {
    let cases = vec![
        ("/path/to/my_list.json", Some("my_list")),
        ("list.mmd", Some("list")),
        ("no_extension", Some("no_extension")),
        (".hidden", Some(".hidden")),
        ("", None),
    ];
    for (input, expected) in cases {
        assert_eq!(extract_name(input), expected.map(|s| s.to_string()), "Failed for input: {}", input);
    }
}
