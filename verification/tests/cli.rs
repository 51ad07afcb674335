use cargo_ohrs::cli::Info;

#[test]
fn banner_holds_name_and_two_lines() {
    let info = Info();
    assert_eq!(info.title(), "\n OHOS-RS ");
    assert_eq!(
        info.description(),
        vec![
            "\n \n This command is used for building native modules of Harmony in the ohos-rs project."
                .to_string(),
            "\n It provides a range of capabilities including project initialization, building, CI/CD, etc."
                .to_string(),
        ]
    );
}
