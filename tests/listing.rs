use rcli::listing::{build_html, FileIndex, FileType};

const HEAD: &str = "<!DOCTYPE html>\n        <html lang=\"en\">\n        <head>\n            <meta charset=\"UTF-8\">\n            <meta name=\"viewport\" content=\"width=device-width, initial-scale=1.0\">\n            <title>Index Of</title>\n        </head>\n        <body>\n        <h1>Index Of</h1>\n        ";

#[test]
fn listing_links_directories_and_files() {
    let list = vec![
        FileIndex { file_name: "../".to_string(), uri: "srv".to_string(), file_type: FileType::Dir, content: None },
        FileIndex { file_name: "a.txt".to_string(), uri: "srv/a.txt".to_string(), file_type: FileType::File, content: None },
    ];
    let html = build_html(&list);
    let expected = format!(
        "{}<a href='/srv'>../</a><br/><a href='/srv/a.txt' download>a.txt</a><br/></body></html>",
        HEAD
    );
    assert_eq!(html, expected);
}

#[test]
fn empty_listing_is_head_and_tail() {
    assert_eq!(build_html(&Vec::new()), format!("{}</body></html>", HEAD));
}
