use rwiki::config::parse_theme;
use rwiki::infobox::clean_infobox_text;
use rwiki::session::{
    build_search_results, Action, AppState, Chapter, Color, ContentBlock, Event, Key,
    SearchResult, Session,
};

fn type_into(s: &mut Session, text: &str) {
    for c in text.chars() {
        let (quit, act) = s.handle_key(Key::Char(c));
        assert!(!quit);
        assert!(act.is_none());
    }
}

#[test]
fn escape_from_searching_clears_buffer() {
    let mut s = Session::new(Color::Default);
    s.handle_key(Key::Char('/'));
    assert!(matches!(s.state, AppState::Searching));
    type_into(&mut s, "some query");
    let (quit, act) = s.handle_key(Key::Esc);
    assert!(matches!(s.state, AppState::Home));
    assert!(s.input.is_empty());
    assert!(!quit);
    assert!(act.is_none());
}

#[test]
fn search_submit_emits_action() {
    let mut s = Session::new(Color::Default);
    s.handle_key(Key::Char('/'));
    type_into(&mut s, "cats");
    let (quit, act) = s.handle_key(Key::Enter);
    assert!(!quit);
    assert!(matches!(s.state, AppState::Loading));
    match act {
        Some(Action::Search(q)) => assert_eq!(q, "cats"),
        _ => panic!("expected a search action"),
    }
}

#[test]
fn empty_search_submit_is_ignored() {
    let mut s = Session::new(Color::Default);
    s.handle_key(Key::Char('/'));
    let (_, act) = s.handle_key(Key::Enter);
    assert!(act.is_none());
    assert!(matches!(s.state, AppState::Searching));
}

#[test]
fn quit_from_home() {
    let mut s = Session::new(Color::Default);
    let (quit, _) = s.handle_key(Key::Char('q'));
    assert!(quit);
}

#[test]
fn searching_q_is_typed_not_quit() {
    let mut s = Session::new(Color::Default);
    s.handle_key(Key::Char('/'));
    let (quit, _) = s.handle_key(Key::Char('q'));
    assert!(!quit);
    assert_eq!(s.input, vec!['q']);
}

fn loaded_session() -> Session {
    let mut s = Session::new(Color::Default);
    let chapters = vec![
        Chapter { index: 1, title: "One".to_string(), block_position: 1 },
        Chapter { index: 2, title: "Two".to_string(), block_position: 4 },
    ];
    let blocks = vec![
        ContentBlock::Text("a".to_string()),
        ContentBlock::Image("https://upload.wikimedia.org/x.png".to_string()),
        ContentBlock::Text("b".to_string()),
        ContentBlock::Text("c".to_string()),
    ];
    let acts = s.apply_event(Event::ArticleLoaded {
        title: "T".to_string(),
        infobox: "I".to_string(),
        blocks,
        images: vec!["https://upload.wikimedia.org/x.png".to_string()],
        chapters,
    });
    assert_eq!(acts.len(), 1);
    match &acts[0] {
        Action::DownloadImage(u) => assert_eq!(u, "https://upload.wikimedia.org/x.png"),
        _ => panic!("expected a download action"),
    }
    s
}

#[test]
fn article_load_resets_view() {
    let s = loaded_session();
    assert!(matches!(s.state, AppState::Reading));
    assert_eq!(s.scroll_offset, 0);
    assert_eq!(s.chapter_selection, Some(0));
    assert!(s.cached_images.is_empty());
}

#[test]
fn chapter_jump_by_command() {
    let mut s = loaded_session();
    s.handle_key(Key::Char(':'));
    assert!(matches!(s.state, AppState::Command));
    type_into(&mut s, "2");
    s.handle_key(Key::Enter);
    assert!(matches!(s.state, AppState::Reading));
    assert_eq!(s.scroll_offset, 40);
    assert!(s.input.is_empty());
}

#[test]
fn chapter_jump_missing_index_keeps_scroll() {
    let mut s = loaded_session();
    s.handle_key(Key::Char('j'));
    s.handle_key(Key::Char('j'));
    assert_eq!(s.scroll_offset, 2);
    s.handle_key(Key::Char(':'));
    type_into(&mut s, "3");
    s.handle_key(Key::Enter);
    assert!(matches!(s.state, AppState::Reading));
    assert_eq!(s.scroll_offset, 2);
    assert!(s.input.is_empty());
}

#[test]
fn chapter_jump_unparsable_keeps_scroll() {
    let mut s = loaded_session();
    s.handle_key(Key::Char(':'));
    type_into(&mut s, "two");
    s.handle_key(Key::Enter);
    assert!(matches!(s.state, AppState::Reading));
    assert_eq!(s.scroll_offset, 0);
}

#[test]
fn scroll_floors_at_zero() {
    let mut s = loaded_session();
    s.handle_key(Key::Char('k'));
    assert_eq!(s.scroll_offset, 0);
    s.handle_key(Key::Char('j'));
    s.handle_key(Key::Char('k'));
    s.handle_key(Key::Char('k'));
    assert_eq!(s.scroll_offset, 0);
}

#[test]
fn chapters_pane_selection_and_enter() {
    let mut s = loaded_session();
    s.handle_key(Key::Char('c'));
    assert!(matches!(s.state, AppState::Chapters));
    s.handle_key(Key::Down);
    assert_eq!(s.chapter_selection, Some(1));
    s.handle_key(Key::Down);
    assert_eq!(s.chapter_selection, Some(1));
    s.handle_key(Key::Enter);
    assert!(matches!(s.state, AppState::Reading));
    assert_eq!(s.scroll_offset, 40);
}

#[test]
fn results_selection_saturates() {
    let mut s = Session::new(Color::Default);
    let results = vec![
        SearchResult { title: "A".to_string(), snippet: "ua".to_string() },
        SearchResult { title: "B".to_string(), snippet: "ub".to_string() },
    ];
    s.apply_event(Event::SearchResults(results));
    assert!(matches!(s.state, AppState::ResultsList));
    assert_eq!(s.selected_index, 0);
    s.handle_key(Key::Up);
    assert_eq!(s.selected_index, 0);
    s.handle_key(Key::Down);
    assert_eq!(s.selected_index, 1);
    s.handle_key(Key::Down);
    assert_eq!(s.selected_index, 1);
    let (_, act) = s.handle_key(Key::Enter);
    match act {
        Some(Action::FetchArticle(t)) => assert_eq!(t, "B"),
        _ => panic!("expected a fetch action"),
    }
    assert!(matches!(s.state, AppState::Loading));
}

#[test]
fn image_cache_inserts_once_per_address() {
    let mut s = loaded_session();
    s.apply_event(Event::ImageDownloaded("u1".to_string()));
    s.apply_event(Event::ImageDownloaded("u1".to_string()));
    s.apply_event(Event::ImageDownloaded("u2".to_string()));
    assert_eq!(s.cached_images, vec!["u1".to_string(), "u2".to_string()]);
}

#[test]
fn failure_event_reaches_error_state() {
    let mut s = Session::new(Color::Default);
    s.apply_event(Event::Failure("boom".to_string()));
    match &s.state {
        AppState::Error(m) => assert_eq!(m, "boom"),
        _ => panic!("expected the error state"),
    }
}

#[test]
fn theme_event_applied() {
    let mut s = Session::new(Color::Default);
    s.apply_event(Event::ThemeChanged(Color::Rgb(1, 2, 3)));
    assert_eq!(s.theme, Color::Rgb(1, 2, 3));
}

#[test]
fn build_search_results_zips() {
    let r = build_search_results(
        vec!["A".to_string(), "B".to_string()],
        vec!["ua".to_string()],
    );
    assert_eq!(r.len(), 1);
    assert_eq!(r[0].title, "A");
    assert_eq!(r[0].snippet, "ua");
}

#[test]
fn theme_parsed_from_config_text() {
    assert_eq!(parse_theme("theme_color = \"#ff8800\"\n"), Color::Rgb(255, 136, 0));
    assert_eq!(parse_theme("theme_color = '#010203'\n"), Color::Rgb(1, 2, 3));
    assert_eq!(parse_theme("# a comment\ntheme_color=#AABBCC"), Color::Rgb(170, 187, 204));
}

#[test]
fn malformed_theme_falls_back() {
    assert_eq!(parse_theme(""), Color::Default);
    assert_eq!(parse_theme("theme_color = red"), Color::Default);
    assert_eq!(parse_theme("theme_color = \"#ff88\"\n"), Color::Default);
    assert_eq!(parse_theme("theme_color = \"#ff88zz\"\n"), Color::Default);
    assert_eq!(parse_theme("other_key = \"#ff8800\"\n"), Color::Default);
}

#[test]
fn first_valid_theme_line_wins() {
    let text = "theme_color = nonsense\ntheme_color = \"#000102\"\ntheme_color = \"#ffffff\"\n";
    assert_eq!(parse_theme(text), Color::Rgb(0, 1, 2));
}

#[test]
fn infobox_cleanup_rules() {
    let raw = "____|____\n[[File:photo.png]]\nBorn  1900[1]\n\n\n\nDied 1980[edit]\n";
    let cleaned = clean_infobox_text(raw);
    assert_eq!(cleaned, "Born  1900\n\nDied 1980");
}

#[test]
fn infobox_cleanup_is_stable() {
    let raw = "A[1]\n\nB\n";
    let once = clean_infobox_text(raw);
    let twice = clean_infobox_text(&once);
    assert_eq!(once, twice);
}

#[test]
fn parse_usize_through_command_state() {
    let mut s = loaded_session();
    s.handle_key(Key::Char(':'));
    type_into(&mut s, "12");
    s.handle_key(Key::Backspace);
    assert_eq!(s.input, vec!['1']);
    s.handle_key(Key::Enter);
    assert_eq!(s.scroll_offset, 10);
}
