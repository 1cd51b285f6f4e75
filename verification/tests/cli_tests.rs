use wenfox::cli::WenfoxCliMessage;

#[test]
fn cli_message_holds_package_information() {
    let m = WenfoxCliMessage {
        version: "0.1.0",
        name: "wenfox",
        description: "desktop shell",
        build_time: "2024-01-01",
        license: "MIT",
        author: "someone",
    };
    assert_eq!(m.name, "wenfox");
    assert_eq!(m.version, "0.1.0");
    assert_eq!(m.license, "MIT");
    assert_eq!(m.author, "someone");
    assert_eq!(m.build_time, "2024-01-01");
    assert_eq!(m.description, "desktop shell");
}
