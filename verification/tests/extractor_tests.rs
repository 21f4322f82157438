use selene::errors::ExtractError;
use selene::extractor::{filter_lesson_links, parse_lesson, Lesson};

#[test]
fn lesson_page_yields_playlist_urls_in_order() {
    let page = "var player; var allVideos = [\n\
        { id: 1, src : \"https://host/a/one.m3u8\", },\n\
        { id: 2, src: 'https://host/a/two.m3u8', },\n\
    ]; var rest = 0;";
    let parts = parse_lesson(page).unwrap();
    let urls: Vec<&str> = parts.iter().map(|p| p.url.as_str()).collect();
    assert_eq!(urls, vec!["https://host/a/one.m3u8", "https://host/a/two.m3u8"]);
}

#[test]
fn page_without_video_list_is_rejected() {
    assert_eq!(
        parse_lesson("<html>nothing here</html>"),
        Err(ExtractError::VideoListNotFound)
    );
}

#[test]
fn unterminated_video_list_is_rejected() {
    let page = "allVideos = [ { src: \"https://host/a/one.m3u8\", }";
    assert!(matches!(parse_lesson(page), Err(ExtractError::BracketSearch(_))));
}

#[test]
fn dashboard_links_are_filtered_and_numbered() {
    let links = vec![
        "watchLesson.php?id=10".to_string(),
        "profile.php".to_string(),
        "watchLesson.php?id=11".to_string(),
    ];
    let lessons = filter_lesson_links(links);
    assert_eq!(
        lessons,
        vec![
            Lesson { no: 0, link: "watchLesson.php?id=10".to_string() },
            Lesson { no: 1, link: "watchLesson.php?id=11".to_string() },
        ]
    );
}
