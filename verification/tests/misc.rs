use task_tracker::text::concat_strings;
use task_tracker::news::{NewsArticle, display_lines};

#[test]
fn test_concat_strings() {
    assert_eq!(concat_strings("Rust ", "is awesome"), "Rust is awesome");
}

#[test]
fn test_concat_empty() {
    assert_eq!(concat_strings("", ""), "");
    assert_eq!(concat_strings("x", ""), "x");
    assert_eq!(concat_strings("", "y"), "y");
}

#[test]
fn test_display_lines() {
    let articles = vec![
        NewsArticle {
            title: "First".to_string(),
            description: Some("About first".to_string()),
            url: "http://a".to_string(),
        },
        NewsArticle {
            title: "Second".to_string(),
            description: None,
            url: "http://b".to_string(),
        },
    ];
    let lines = display_lines(&articles, 10);
    assert_eq!(
        lines,
        vec![
            "".to_string(),
            "[1] First".to_string(),
            "    About first".to_string(),
            "    Read more: http://a".to_string(),
            "".to_string(),
            "[2] Second".to_string(),
            "    Read more: http://b".to_string(),
        ]
    );
}

#[test]
fn test_display_lines_limit() {
    let articles = vec![
        NewsArticle {
            title: "First".to_string(),
            description: None,
            url: "u1".to_string(),
        },
        NewsArticle {
            title: "Second".to_string(),
            description: None,
            url: "u2".to_string(),
        },
    ];
    let lines = display_lines(&articles, 1);
    assert_eq!(
        lines,
        vec!["".to_string(), "[1] First".to_string(), "    Read more: u1".to_string()]
    );
    assert_eq!(display_lines(&articles, 0).len(), 0);
}
