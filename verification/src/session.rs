//! The interactive session: its data, its user-interface states, and the
//! single transition function that maps a state and a key (or a background
//! event) to the next state and the actions to dispatch.
use crate::text::{digits_value, is_digits, parse_usize};
use vstd::prelude::*;

verus! {

/// One entry of a search response.
pub struct SearchResult {
    pub title: String,
    pub snippet: String,
}

/// One unit of article content, kept strictly in document order.
pub enum ContentBlock {
    Text(String),
    Image(String),
}

/// A named section header, anchored to the position in the block list at
/// which it was discovered. Indices are one-based and dense.
pub struct Chapter {
    pub index: usize,
    pub title: String,
    pub block_position: usize,
}

/// A display color: the terminal default accent or an exact RGB value.
#[derive(Clone, Copy, Debug, PartialEq, Eq, Structural)]
pub enum Color {
    Default,
    Rgb(u8, u8, u8),
}

/// The user-interface states.
pub enum AppState {
    Home,
    Searching,
    Command,
    Chapters,
    Loading,
    ResultsList,
    Reading,
    Error(String),
}

/// A key press, as the session sees it.
#[derive(Clone, Copy, PartialEq, Eq, Structural)]
pub enum Key {
    Char(char),
    Esc,
    Enter,
    Backspace,
    Up,
    Down,
    Other,
}

/// A request handed to the background task orchestrator.
pub enum Action {
    Search(String),
    FetchArticle(String),
    DownloadImage(String),
}

/// A completed background result, applied on a loop tick.
pub enum Event {
    SearchResults(Vec<SearchResult>),
    ArticleLoaded {
        title: String,
        infobox: String,
        blocks: Vec<ContentBlock>,
        images: Vec<String>,
        chapters: Vec<Chapter>,
    },
    ImageDownloaded(String),
    ThemeChanged(Color),
    Failure(String),
}

/// The session record: the one owner of all interactive state.
pub struct Session {
    pub state: AppState,
    pub input: Vec<char>,
    pub search_results: Vec<SearchResult>,
    pub selected_index: usize,
    pub theme: Color,
    pub article_title: String,
    pub infobox: String,
    pub blocks: Vec<ContentBlock>,
    pub chapters: Vec<Chapter>,
    pub scroll_offset: usize,
    pub chapter_selection: Option<usize>,
    pub cached_images: Vec<String>,
}

/// The fields a key press can never touch: everything loaded from the
/// network and the theme.
pub open spec fn same_data(a: Session, b: Session) -> bool {
    &&& b.search_results == a.search_results
    &&& b.theme == a.theme
    &&& b.article_title == a.article_title
    &&& b.infobox == a.infobox
    &&& b.blocks == a.blocks
    &&& b.chapters == a.chapters
    &&& b.cached_images == a.cached_images
}

/// Scroll position a chapter jump lands on: ten rendered rows per block,
/// clamped to the machine's range.
pub open spec fn scaled_position(p: int) -> int {
    if p * 10 > usize::MAX as int {
        usize::MAX as int
    } else {
        p * 10
    }
}

/// The first chapter carrying the given one-based index, if any.
pub open spec fn find_chapter(chapters: Seq<Chapter>, idx: int) -> Option<Chapter>
    decreases chapters.len(),
{
    if chapters.len() == 0 {
        Option::None
    } else if chapters[0].index == idx {
        Option::Some(chapters[0])
    } else {
        find_chapter(chapters.skip(1), idx)
    }
}

/// Where the chapter-jump command sends the scroll offset: the buffer must
/// parse as a number and a chapter must carry it as index; otherwise the
/// offset stays.
pub open spec fn command_jump(pre: Session) -> int {
    if is_digits(pre.input@) && 0 <= digits_value(pre.input@) <= usize::MAX as int {
        match find_chapter(pre.chapters@, digits_value(pre.input@)) {
            Option::Some(c) => scaled_position(c.block_position as int),
            Option::None => pre.scroll_offset as int,
        }
    } else {
        pre.scroll_offset as int
    }
}

/// The transition relation of a key press: `key_step(pre, k, post, quit, act)`
/// holds exactly when pressing `k` in `pre` yields `post`, quits iff `quit`,
/// and dispatches `act`.
pub open spec fn key_step(
    pre: Session,
    k: Key,
    post: Session,
    quit: bool,
    act: Option<Action>,
) -> bool {
    &&& same_data(pre, post)
    &&& match pre.state {
        AppState::Reading => key_step_reading(pre, k, post, quit, act),
        AppState::Chapters => key_step_chapters(pre, k, post, quit, act),
        AppState::Command => key_step_command(pre, k, post, quit, act),
        AppState::Searching => key_step_searching(pre, k, post, quit, act),
        _ => key_step_other(pre, k, post, quit, act),
    }
}

/// Nothing moved and nothing was dispatched.
pub open spec fn key_noop(pre: Session, post: Session, quit: bool, act: Option<Action>) -> bool {
    post == pre && !quit && act is None
}

/// All volatile fields but the state itself kept.
pub open spec fn same_but_state(pre: Session, post: Session) -> bool {
    &&& post.input == pre.input
    &&& post.selected_index == pre.selected_index
    &&& post.scroll_offset == pre.scroll_offset
    &&& post.chapter_selection == pre.chapter_selection
}

/// All volatile fields but the state and the input buffer kept; the buffer
/// is empty afterwards.
pub open spec fn cleared_input(pre: Session, post: Session) -> bool {
    &&& post.input@ == Seq::<char>::empty()
    &&& post.selected_index == pre.selected_index
    &&& post.scroll_offset == pre.scroll_offset
    &&& post.chapter_selection == pre.chapter_selection
}

pub open spec fn key_step_reading(
    pre: Session,
    k: Key,
    post: Session,
    quit: bool,
    act: Option<Action>,
) -> bool {
    match k {
        Key::Char(c) => {
            if c == 'q' {
                post == pre && quit && act is None
            } else if c == '/' {
                post.state is Searching && cleared_input(pre, post) && !quit && act is None
            } else if c == ':' {
                post.state is Command && cleared_input(pre, post) && !quit && act is None
            } else if c == 'c' {
                &&& post.state is Chapters
                &&& post.input == pre.input
                &&& post.selected_index == pre.selected_index
                &&& post.scroll_offset == pre.scroll_offset
                &&& post.chapter_selection == (if pre.chapter_selection is None
                    && pre.chapters@.len() > 0 {
                    Option::Some(0usize)
                } else {
                    pre.chapter_selection
                })
                &&& !quit
                &&& act is None
            } else if c == 'j' {
                scroll_down_step(pre, post, quit, act)
            } else if c == 'k' {
                scroll_up_step(pre, post, quit, act)
            } else {
                key_noop(pre, post, quit, act)
            }
        },
        Key::Esc => post.state is ResultsList && same_but_state(pre, post) && !quit
            && act is None,
        Key::Down => scroll_down_step(pre, post, quit, act),
        Key::Up => scroll_up_step(pre, post, quit, act),
        _ => key_noop(pre, post, quit, act),
    }
}

pub open spec fn scroll_down_step(
    pre: Session,
    post: Session,
    quit: bool,
    act: Option<Action>,
) -> bool {
    &&& post.state is Reading
    &&& post.input == pre.input
    &&& post.selected_index == pre.selected_index
    &&& post.chapter_selection == pre.chapter_selection
    &&& post.scroll_offset as int == (if pre.scroll_offset < usize::MAX {
        pre.scroll_offset + 1
    } else {
        pre.scroll_offset as int
    })
    &&& !quit
    &&& act is None
}

pub open spec fn scroll_up_step(
    pre: Session,
    post: Session,
    quit: bool,
    act: Option<Action>,
) -> bool {
    &&& post.state is Reading
    &&& post.input == pre.input
    &&& post.selected_index == pre.selected_index
    &&& post.chapter_selection == pre.chapter_selection
    &&& post.scroll_offset as int == (if pre.scroll_offset > 0 {
        pre.scroll_offset - 1
    } else {
        0int
    })
    &&& !quit
    &&& act is None
}

pub open spec fn key_step_chapters(
    pre: Session,
    k: Key,
    post: Session,
    quit: bool,
    act: Option<Action>,
) -> bool {
    match k {
        Key::Char(c) => {
            if c == 'q' {
                post == pre && quit && act is None
            } else if c == 'c' {
                post.state is Reading && same_but_state(pre, post) && !quit && act is None
            } else if c == 'j' {
                chapter_down_step(pre, post, quit, act)
            } else if c == 'k' {
                chapter_up_step(pre, post, quit, act)
            } else {
                key_noop(pre, post, quit, act)
            }
        },
        Key::Esc => post.state is Reading && same_but_state(pre, post) && !quit && act is None,
        Key::Down => chapter_down_step(pre, post, quit, act),
        Key::Up => chapter_up_step(pre, post, quit, act),
        Key::Enter => {
            &&& post.state is Reading
            &&& post.input == pre.input
            &&& post.selected_index == pre.selected_index
            &&& post.chapter_selection == pre.chapter_selection
            &&& post.scroll_offset as int == (match pre.chapter_selection {
                Option::Some(i) => if i < pre.chapters@.len() {
                    scaled_position(pre.chapters@[i as int].block_position as int)
                } else {
                    pre.scroll_offset as int
                },
                Option::None => pre.scroll_offset as int,
            })
            &&& !quit
            &&& act is None
        },
        _ => key_noop(pre, post, quit, act),
    }
}

pub open spec fn chapter_down_step(
    pre: Session,
    post: Session,
    quit: bool,
    act: Option<Action>,
) -> bool {
    let sel = match pre.chapter_selection {
        Option::Some(i) => i as int,
        Option::None => 0int,
    };
    &&& post.state is Chapters
    &&& post.input == pre.input
    &&& post.selected_index == pre.selected_index
    &&& post.scroll_offset == pre.scroll_offset
    &&& post.chapter_selection == (if sel + 1 < pre.chapters@.len() {
        Option::Some((sel + 1) as usize)
    } else {
        pre.chapter_selection
    })
    &&& !quit
    &&& act is None
}

pub open spec fn chapter_up_step(
    pre: Session,
    post: Session,
    quit: bool,
    act: Option<Action>,
) -> bool {
    let sel = match pre.chapter_selection {
        Option::Some(i) => i as int,
        Option::None => 0int,
    };
    &&& post.state is Chapters
    &&& post.input == pre.input
    &&& post.selected_index == pre.selected_index
    &&& post.scroll_offset == pre.scroll_offset
    &&& post.chapter_selection == (if sel > 0 {
        Option::Some((sel - 1) as usize)
    } else {
        pre.chapter_selection
    })
    &&& !quit
    &&& act is None
}

pub open spec fn key_step_command(
    pre: Session,
    k: Key,
    post: Session,
    quit: bool,
    act: Option<Action>,
) -> bool {
    match k {
        Key::Esc => post.state is Reading && cleared_input(pre, post) && !quit && act is None,
        Key::Enter => {
            &&& post.state is Reading
            &&& post.input@ == Seq::<char>::empty()
            &&& post.selected_index == pre.selected_index
            &&& post.chapter_selection == pre.chapter_selection
            &&& post.scroll_offset as int == command_jump(pre)
            &&& !quit
            &&& act is None
        },
        Key::Char(c) => {
            &&& post.state is Command
            &&& post.input@ == pre.input@.push(c)
            &&& post.selected_index == pre.selected_index
            &&& post.scroll_offset == pre.scroll_offset
            &&& post.chapter_selection == pre.chapter_selection
            &&& !quit
            &&& act is None
        },
        Key::Backspace => {
            &&& post.state is Command
            &&& post.input@ == (if pre.input@.len() > 0 {
                pre.input@.take(pre.input@.len() - 1)
            } else {
                pre.input@
            })
            &&& post.selected_index == pre.selected_index
            &&& post.scroll_offset == pre.scroll_offset
            &&& post.chapter_selection == pre.chapter_selection
            &&& !quit
            &&& act is None
        },
        _ => key_noop(pre, post, quit, act),
    }
}

pub open spec fn key_step_searching(
    pre: Session,
    k: Key,
    post: Session,
    quit: bool,
    act: Option<Action>,
) -> bool {
    match k {
        Key::Esc => post.state is Home && cleared_input(pre, post) && !quit && act is None,
        Key::Enter => {
            if pre.input@.len() > 0 {
                &&& post.state is Loading
                &&& post.input == pre.input
                &&& post.selected_index == pre.selected_index
                &&& post.scroll_offset == pre.scroll_offset
                &&& post.chapter_selection == pre.chapter_selection
                &&& !quit
                &&& act matches Option::Some(Action::Search(q)) && q@ == pre.input@
            } else {
                key_noop(pre, post, quit, act)
            }
        },
        Key::Char(c) => {
            &&& post.state is Searching
            &&& post.input@ == pre.input@.push(c)
            &&& post.selected_index == pre.selected_index
            &&& post.scroll_offset == pre.scroll_offset
            &&& post.chapter_selection == pre.chapter_selection
            &&& !quit
            &&& act is None
        },
        Key::Backspace => {
            &&& post.state is Searching
            &&& post.input@ == (if pre.input@.len() > 0 {
                pre.input@.take(pre.input@.len() - 1)
            } else {
                pre.input@
            })
            &&& post.selected_index == pre.selected_index
            &&& post.scroll_offset == pre.scroll_offset
            &&& post.chapter_selection == pre.chapter_selection
            &&& !quit
            &&& act is None
        },
        _ => key_noop(pre, post, quit, act),
    }
}

/// `Home`, `Loading`, `ResultsList` and `Error` share one key handler.
pub open spec fn key_step_other(
    pre: Session,
    k: Key,
    post: Session,
    quit: bool,
    act: Option<Action>,
) -> bool {
    match k {
        Key::Char(c) => {
            if c == 'q' {
                post == pre && quit && act is None
            } else if c == '/' {
                post.state is Searching && cleared_input(pre, post) && !quit && act is None
            } else if c == 'j' {
                select_down_step(pre, post, quit, act)
            } else if c == 'k' {
                select_up_step(pre, post, quit, act)
            } else {
                key_noop(pre, post, quit, act)
            }
        },
        Key::Esc => post.state is Home && same_but_state(pre, post) && !quit && act is None,
        Key::Enter => {
            if pre.state is ResultsList && pre.selected_index < pre.search_results@.len() {
                &&& post.state is Loading
                &&& post.input == pre.input
                &&& post.selected_index == pre.selected_index
                &&& post.scroll_offset == pre.scroll_offset
                &&& post.chapter_selection == pre.chapter_selection
                &&& !quit
                &&& act matches Option::Some(Action::FetchArticle(t)) && t@ == pre.search_results@[
                    pre.selected_index as int
                ].title@
            } else {
                key_noop(pre, post, quit, act)
            }
        },
        Key::Down => select_down_step(pre, post, quit, act),
        Key::Up => select_up_step(pre, post, quit, act),
        _ => key_noop(pre, post, quit, act),
    }
}

pub open spec fn select_down_step(
    pre: Session,
    post: Session,
    quit: bool,
    act: Option<Action>,
) -> bool {
    &&& post.state == pre.state
    &&& post.input == pre.input
    &&& post.scroll_offset == pre.scroll_offset
    &&& post.chapter_selection == pre.chapter_selection
    &&& post.selected_index as int == (if pre.state is ResultsList && pre.search_results@.len()
        > 0 && pre.selected_index + 1 < pre.search_results@.len() {
        pre.selected_index + 1
    } else {
        pre.selected_index as int
    })
    &&& !quit
    &&& act is None
}

pub open spec fn select_up_step(
    pre: Session,
    post: Session,
    quit: bool,
    act: Option<Action>,
) -> bool {
    &&& post.state == pre.state
    &&& post.input == pre.input
    &&& post.scroll_offset == pre.scroll_offset
    &&& post.chapter_selection == pre.chapter_selection
    &&& post.selected_index as int == (if pre.state is ResultsList && pre.selected_index > 0 {
        pre.selected_index - 1
    } else {
        pre.selected_index as int
    })
    &&& !quit
    &&& act is None
}


/// The transition relation of a background event: what each event does to
/// the session and which follow-up actions it dispatches.
pub open spec fn event_step(pre: Session, e: Event, post: Session, acts: Seq<Action>) -> bool {
    match e {
        Event::SearchResults(rs) => {
            &&& post.state is ResultsList
            &&& post.search_results == rs
            &&& post.selected_index == 0
            &&& post.input == pre.input
            &&& post.theme == pre.theme
            &&& post.article_title == pre.article_title
            &&& post.infobox == pre.infobox
            &&& post.blocks == pre.blocks
            &&& post.chapters == pre.chapters
            &&& post.scroll_offset == pre.scroll_offset
            &&& post.chapter_selection == pre.chapter_selection
            &&& post.cached_images == pre.cached_images
            &&& acts.len() == 0
        },
        Event::ArticleLoaded { title, infobox, blocks, images, chapters } => {
            &&& post.state is Reading
            &&& post.article_title == title
            &&& post.infobox == infobox
            &&& post.blocks == blocks
            &&& post.chapters == chapters
            &&& post.cached_images@ == Seq::<String>::empty()
            &&& post.scroll_offset == 0
            &&& post.chapter_selection == (if chapters@.len() > 0 {
                Option::Some(0usize)
            } else {
                Option::<usize>::None
            })
            &&& post.input == pre.input
            &&& post.search_results == pre.search_results
            &&& post.selected_index == pre.selected_index
            &&& post.theme == pre.theme
            &&& acts.len() == images@.len()
            &&& forall|i: int|
                0 <= i < acts.len() ==> (#[trigger] acts[i] matches Action::DownloadImage(u) && u@
                    == images@[i]@)
        },
        Event::ImageDownloaded(url) => {
            &&& post.state == pre.state
            &&& post.input == pre.input
            &&& post.search_results == pre.search_results
            &&& post.selected_index == pre.selected_index
            &&& post.theme == pre.theme
            &&& post.article_title == pre.article_title
            &&& post.infobox == pre.infobox
            &&& post.blocks == pre.blocks
            &&& post.chapters == pre.chapters
            &&& post.scroll_offset == pre.scroll_offset
            &&& post.chapter_selection == pre.chapter_selection
            &&& (if pre.cached_images.deep_view().contains(url@) {
                post.cached_images == pre.cached_images
            } else {
                post.cached_images.deep_view() == pre.cached_images.deep_view().push(url@)
            })
            &&& acts.len() == 0
        },
        Event::ThemeChanged(c) => {
            &&& post.theme == c
            &&& post.state == pre.state
            &&& post.input == pre.input
            &&& post.search_results == pre.search_results
            &&& post.selected_index == pre.selected_index
            &&& post.article_title == pre.article_title
            &&& post.infobox == pre.infobox
            &&& post.blocks == pre.blocks
            &&& post.chapters == pre.chapters
            &&& post.scroll_offset == pre.scroll_offset
            &&& post.chapter_selection == pre.chapter_selection
            &&& post.cached_images == pre.cached_images
            &&& acts.len() == 0
        },
        Event::Failure(msg) => {
            &&& post.state matches AppState::Error(m) && m@ == msg@
            &&& post.input == pre.input
            &&& post.search_results == pre.search_results
            &&& post.selected_index == pre.selected_index
            &&& post.theme == pre.theme
            &&& post.article_title == pre.article_title
            &&& post.infobox == pre.infobox
            &&& post.blocks == pre.blocks
            &&& post.chapters == pre.chapters
            &&& post.scroll_offset == pre.scroll_offset
            &&& post.chapter_selection == pre.chapter_selection
            &&& post.cached_images == pre.cached_images
            &&& acts.len() == 0
        },
    }
}

proof fn lemma_find_chapter_skip(chapters: Seq<Chapter>, idx: int, k: int)
    requires
        0 <= k <= chapters.len(),
        forall|m: int| 0 <= m < k ==> chapters[m].index != idx,
    ensures
        find_chapter(chapters, idx) == find_chapter(chapters.skip(k), idx),
    decreases k,
{
    if k == 0 {
        assert(chapters.skip(0) =~= chapters);
    } else {
        lemma_find_chapter_skip(chapters, idx, k - 1);
        let t = chapters.skip(k - 1);
        assert(t[0] == chapters[k - 1]);
        assert(find_chapter(t, idx) == find_chapter(t.skip(1), idx));
        assert(t.skip(1) =~= chapters.skip(k));
    }
}

/// No chapter carries the index exactly when the search comes back empty.
pub proof fn lemma_find_chapter_none(chapters: Seq<Chapter>, idx: int)
    ensures
        find_chapter(chapters, idx) is None <==> forall|m: int|
            0 <= m < chapters.len() ==> chapters[m].index != idx,
    decreases chapters.len(),
{
    if chapters.len() > 0 {
        lemma_find_chapter_none(chapters.skip(1), idx);
        assert forall|m: int| 1 <= m < chapters.len() implies chapters.skip(1)[m - 1]
            == chapters[m] by {}
    }
}

impl Session {
    /// A fresh session: at home, with nothing loaded.
    pub fn new(theme: Color) -> (s: Session)
        ensures
            s.state is Home,
            s.input@ == Seq::<char>::empty(),
            s.search_results@ == Seq::<SearchResult>::empty(),
            s.selected_index == 0,
            s.theme == theme,
            s.article_title@ == Seq::<char>::empty(),
            s.infobox@ == Seq::<char>::empty(),
            s.blocks@ == Seq::<ContentBlock>::empty(),
            s.chapters@ == Seq::<Chapter>::empty(),
            s.scroll_offset == 0,
            s.chapter_selection is None,
            s.cached_images@ == Seq::<String>::empty(),
    {
        Session {
            state: AppState::Home,
            input: Vec::new(),
            search_results: Vec::new(),
            selected_index: 0,
            theme,
            article_title: String::new(),
            infobox: String::new(),
            blocks: Vec::new(),
            chapters: Vec::new(),
            scroll_offset: 0,
            chapter_selection: Option::None,
            cached_images: Vec::new(),
        }
    }

    /// Apply one key press. Returns whether the session should end, and the
    /// action to dispatch, if any.
    pub fn handle_key(&mut self, k: Key) -> (r: (bool, Option<Action>))
        ensures
            key_step(*old(self), k, *final(self), r.0, r.1),
    {
        match self.state {
            AppState::Reading => {
                match k {
                    Key::Char(c) => {
                        if c == 'q' {
                            return (true, Option::None);
                        } else if c == '/' {
                            self.input = Vec::new();
                            self.state = AppState::Searching;
                        } else if c == ':' {
                            self.input = Vec::new();
                            self.state = AppState::Command;
                        } else if c == 'c' {
                            if self.chapter_selection.is_none() && self.chapters.len() > 0 {
                                self.chapter_selection = Option::Some(0);
                            }
                            self.state = AppState::Chapters;
                        } else if c == 'j' {
                            self.scroll_down();
                        } else if c == 'k' {
                            self.scroll_up();
                        }
                    },
                    Key::Esc => {
                        self.state = AppState::ResultsList;
                    },
                    Key::Down => {
                        self.scroll_down();
                    },
                    Key::Up => {
                        self.scroll_up();
                    },
                    _ => {},
                }
            },
            AppState::Chapters => {
                match k {
                    Key::Char(c) => {
                        if c == 'q' {
                            return (true, Option::None);
                        } else if c == 'c' {
                            self.state = AppState::Reading;
                        } else if c == 'j' {
                            self.chapter_down();
                        } else if c == 'k' {
                            self.chapter_up();
                        }
                    },
                    Key::Esc => {
                        self.state = AppState::Reading;
                    },
                    Key::Down => {
                        self.chapter_down();
                    },
                    Key::Up => {
                        self.chapter_up();
                    },
                    Key::Enter => {
                        match self.chapter_selection {
                            Option::Some(i) => {
                                if i < self.chapters.len() {
                                    let p = self.chapters[i].block_position;
                                    self.scroll_offset = scale_block_position(p);
                                }
                            },
                            Option::None => {},
                        }
                        self.state = AppState::Reading;
                    },
                    _ => {},
                }
            },
            AppState::Command => {
                match k {
                    Key::Esc => {
                        self.state = AppState::Reading;
                        self.input = Vec::new();
                    },
                    Key::Enter => {
                        match parse_usize(&self.input) {
                            Option::Some(idx) => {
                                match Self::chapter_position(&self.chapters, idx) {
                                    Option::Some(p) => {
                                        self.scroll_offset = scale_block_position(p);
                                    },
                                    Option::None => {},
                                }
                            },
                            Option::None => {},
                        }
                        self.state = AppState::Reading;
                        self.input = Vec::new();
                    },
                    Key::Char(c) => {
                        self.input.push(c);
                    },
                    Key::Backspace => {
                        self.input.pop();
                    },
                    _ => {},
                }
            },
            AppState::Searching => {
                match k {
                    Key::Esc => {
                        self.state = AppState::Home;
                        self.input = Vec::new();
                    },
                    Key::Enter => {
                        if self.input.len() > 0 {
                            self.state = AppState::Loading;
                            let q = crate::strings::chars_to_string(&self.input);
                            return (false, Option::Some(Action::Search(q)));
                        }
                    },
                    Key::Char(c) => {
                        self.input.push(c);
                    },
                    Key::Backspace => {
                        self.input.pop();
                    },
                    _ => {},
                }
            },
            _ => {
                match k {
                    Key::Char(c) => {
                        if c == 'q' {
                            return (true, Option::None);
                        } else if c == '/' {
                            self.input = Vec::new();
                            self.state = AppState::Searching;
                        } else if c == 'j' {
                            self.select_down();
                        } else if c == 'k' {
                            self.select_up();
                        }
                    },
                    Key::Esc => {
                        self.state = AppState::Home;
                    },
                    Key::Enter => {
                        if matches!(self.state, AppState::ResultsList) && self.selected_index
                            < self.search_results.len() {
                            self.state = AppState::Loading;
                            let t = clone_string(&self.search_results[self.selected_index].title);
                            return (false, Option::Some(Action::FetchArticle(t)));
                        }
                    },
                    Key::Down => {
                        self.select_down();
                    },
                    Key::Up => {
                        self.select_up();
                    },
                    _ => {},
                }
            },
        }
        (false, Option::None)
    }

    fn scroll_down(&mut self)
        ensures
            scroll_down_step(*old(self), *final(self), false, Option::None),
            same_data(*old(self), *final(self)),
            old(self).state is Reading ==> final(self).state is Reading,
    {
        if self.scroll_offset < usize::MAX {
            self.scroll_offset = self.scroll_offset + 1;
        }
        self.state = AppState::Reading;
    }

    fn scroll_up(&mut self)
        ensures
            scroll_up_step(*old(self), *final(self), false, Option::None),
            same_data(*old(self), *final(self)),
    {
        if self.scroll_offset > 0 {
            self.scroll_offset = self.scroll_offset - 1;
        }
        self.state = AppState::Reading;
    }

    fn chapter_down(&mut self)
        ensures
            chapter_down_step(*old(self), *final(self), false, Option::None),
            same_data(*old(self), *final(self)),
    {
        let i = match self.chapter_selection {
            Option::Some(i) => i,
            Option::None => 0,
        };
        let n = self.chapters.len();
        if n > 0 && i < n - 1 {
            self.chapter_selection = Option::Some(i + 1);
        }
        self.state = AppState::Chapters;
    }

    fn chapter_up(&mut self)
        ensures
            chapter_up_step(*old(self), *final(self), false, Option::None),
            same_data(*old(self), *final(self)),
    {
        let i = match self.chapter_selection {
            Option::Some(i) => i,
            Option::None => 0,
        };
        if i > 0 {
            self.chapter_selection = Option::Some(i - 1);
        }
        self.state = AppState::Chapters;
    }

    fn select_down(&mut self)
        ensures
            select_down_step(*old(self), *final(self), false, Option::None),
            same_data(*old(self), *final(self)),
    {
        let n = self.search_results.len();
        if matches!(self.state, AppState::ResultsList) && n > 0 && self.selected_index < n - 1 {
            self.selected_index = self.selected_index + 1;
        }
    }

    fn select_up(&mut self)
        ensures
            select_up_step(*old(self), *final(self), false, Option::None),
            same_data(*old(self), *final(self)),
    {
        if matches!(self.state, AppState::ResultsList) && self.selected_index > 0 {
            self.selected_index = self.selected_index - 1;
        }
    }

    /// Block position of the first chapter with the given one-based index.
    fn chapter_position(chapters: &Vec<Chapter>, idx: usize) -> (r: Option<usize>)
        ensures
            match find_chapter(chapters@, idx as int) {
                Option::Some(c) => r == Option::Some(c.block_position),
                Option::None => r is None,
            },
    {
        let n = chapters.len();
        let mut i: usize = 0;
        while i < n
            invariant
                0 <= i <= n == chapters@.len(),
                forall|m: int| 0 <= m < i ==> chapters@[m].index != idx,
            decreases n - i,
        {
            if chapters[i].index == idx {
                proof {
                    lemma_find_chapter_skip(chapters@, idx as int, i as int);
                    assert(chapters@.skip(i as int)[0] == chapters@[i as int]);
                }
                return Option::Some(chapters[i].block_position);
            }
            i += 1;
        }
        proof {
            lemma_find_chapter_skip(chapters@, idx as int, i as int);
            assert(chapters@.skip(i as int) =~= Seq::<Chapter>::empty());
        }
        Option::None
    }

    /// Apply one background event. Returns the actions it sets off: one
    /// image download per image of a freshly loaded article.
    pub fn apply_event(&mut self, e: Event) -> (acts: Vec<Action>)
        ensures
            event_step(*old(self), e, *final(self), acts@),
    {
        match e {
            Event::SearchResults(rs) => {
                self.search_results = rs;
                self.selected_index = 0;
                self.state = AppState::ResultsList;
                Vec::new()
            },
            Event::ArticleLoaded { title, infobox, blocks, images, chapters } => {
                self.chapter_selection = if chapters.len() > 0 {
                    Option::Some(0)
                } else {
                    Option::None
                };
                self.article_title = title;
                self.infobox = infobox;
                self.blocks = blocks;
                self.chapters = chapters;
                self.cached_images = Vec::new();
                self.scroll_offset = 0;
                self.state = AppState::Reading;
                let mut acts: Vec<Action> = Vec::new();
                let mut i: usize = 0;
                let n = images.len();
                while i < n
                    invariant
                        0 <= i <= n == images@.len(),
                        acts@.len() == i,
                        forall|m: int|
                            0 <= m < i ==> (#[trigger] acts@[m] matches Action::DownloadImage(u)
                                && u@ == images@[m]@),
                    decreases n - i,
                {
                    let u = clone_string(&images[i]);
                    acts.push(Action::DownloadImage(u));
                    i += 1;
                }
                acts
            },
            Event::ImageDownloaded(url) => {
                if !contains_string(&self.cached_images, &url) {
                    let ghost prev = self.cached_images.deep_view();
                    self.cached_images.push(url);
                    proof {
                        assert(self.cached_images.deep_view() =~= prev.push(
                            self.cached_images@[self.cached_images@.len() - 1]@,
                        ));
                    }
                }
                Vec::new()
            },
            Event::ThemeChanged(c) => {
                self.theme = c;
                Vec::new()
            },
            Event::Failure(msg) => {
                self.state = AppState::Error(msg);
                Vec::new()
            },
        }
    }
}

/// Clone an owned string.
fn clone_string(s: &String) -> (r: String)
    ensures
        r@ == s@,
{
    let r = s.clone();
    proof {
        assert(r@ == s@);
    }
    r
}

/// Whether some entry has exactly the characters of `u`.
fn contains_string(v: &Vec<String>, u: &String) -> (r: bool)
    ensures
        r == v.deep_view().contains(u@),
{
    let n = v.len();
    let mut i: usize = 0;
    while i < n
        invariant
            0 <= i <= n == v@.len(),
            forall|m: int| 0 <= m < i ==> v.deep_view()[m] != u@,
        decreases n - i,
    {
        if v[i].eq(u) {
            proof {
                assert(v.deep_view()[i as int] == v@[i as int]@);
            }
            return true;
        }
        proof {
            assert(v.deep_view()[i as int] == v@[i as int]@);
        }
        i += 1;
    }
    proof {
        if v.deep_view().contains(u@) {
            let w = choose|m: int| 0 <= m < v.deep_view().len() && v.deep_view()[m] == u@;
            assert(v.deep_view()[w] != u@);
        }
    }
    false
}

/// Scroll position of a block: ten rendered rows per block, clamped.
fn scale_block_position(p: usize) -> (r: usize)
    ensures
        r as int == scaled_position(p as int),
{
    proof {
        vstd::arithmetic::div_mod::lemma_fundamental_div_mod(usize::MAX as int, 10);
    }
    if p > usize::MAX / 10 {
        usize::MAX
    } else {
        p * 10
    }
}

/// Pair each search title with the address returned beside it; extra entries
/// of the longer list are dropped.
pub fn build_search_results(titles: Vec<String>, urls: Vec<String>) -> (r: Vec<SearchResult>)
    ensures
        r@.len() == (if titles@.len() <= urls@.len() {
            titles@.len()
        } else {
            urls@.len()
        }),
        forall|i: int|
            0 <= i < r@.len() ==> r@[i].title@ == titles@[i]@ && r@[i].snippet@ == urls@[i]@,
{
    let n = if titles.len() <= urls.len() {
        titles.len()
    } else {
        urls.len()
    };
    let mut r: Vec<SearchResult> = Vec::new();
    let mut i: usize = 0;
    while i < n
        invariant
            0 <= i <= n <= titles@.len(),
            n <= urls@.len(),
            n == (if titles@.len() <= urls@.len() {
                titles@.len()
            } else {
                urls@.len()
            }),
            r@.len() == i,
            forall|m: int|
                0 <= m < i ==> r@[m].title@ == titles@[m]@ && r@[m].snippet@ == urls@[m]@,
        decreases n - i,
    {
        let t = clone_string(&titles[i]);
        let u = clone_string(&urls[i]);
        r.push(SearchResult { title: t, snippet: u });
        i += 1;
    }
    r
}

/// From `Searching`, Escape always returns to `Home` with an empty input
/// buffer, whatever the buffer held beforehand, quitting nothing and
/// dispatching nothing.
pub proof fn lemma_escape_clears_search(
    pre: Session,
    post: Session,
    quit: bool,
    act: Option<Action>,
)
    requires
        pre.state is Searching,
        key_step(pre, Key::Esc, post, quit, act),
    ensures
        post.state is Home,
        post.input@ == Seq::<char>::empty(),
        !quit,
        act is None,
{
}

/// From any state but the two text-entry states, `q` ends the session and
/// touches nothing.
pub proof fn lemma_quit_key(pre: Session, post: Session, quit: bool, act: Option<Action>)
    requires
        !(pre.state is Searching),
        !(pre.state is Command),
        key_step(pre, Key::Char('q'), post, quit, act),
    ensures
        quit,
        post == pre,
        act is None,
{
}

/// Submitting a chapter-jump command whose number no chapter carries leaves
/// the scroll offset unchanged and returns to `Reading`.
pub proof fn lemma_command_jump_missing(
    pre: Session,
    post: Session,
    quit: bool,
    act: Option<Action>,
)
    requires
        pre.state is Command,
        key_step(pre, Key::Enter, post, quit, act),
        forall|m: int|
            0 <= m < pre.chapters@.len() ==> pre.chapters@[m].index as int != digits_value(
                pre.input@,
            ),
    ensures
        post.state is Reading,
        post.scroll_offset == pre.scroll_offset,
        post.input@ == Seq::<char>::empty(),
{
    lemma_find_chapter_none(pre.chapters@, digits_value(pre.input@));
}

} // verus!
