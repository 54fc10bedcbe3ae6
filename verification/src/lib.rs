//! A verified core for a terminal encyclopedia reader: markup sanitization,
//! content-block extraction, text normalization, configuration parsing, and
//! the interactive session's state machine.
pub mod config;
pub mod extract;
pub mod infobox;
pub mod sanitize;
pub mod session;
mod strings;
pub mod text;

use vstd::prelude::*;

verus! {

/// The whole markup-to-content pipeline for one fetched article: sanitize
/// the raw markup, clean the captured infobox, and extract blocks, image
/// addresses and chapters from what remains.
pub fn process_article(markup: &str) -> (r: (String, Vec<session::ContentBlock>, Vec<String>, Vec<
    session::Chapter,
>))
    ensures
        ({
            let cleaned = sanitize::sanitize_spec(markup@).1;
            &&& extract::blocks_view(r.1@) == extract::extract_spec(cleaned).0
            &&& r.2.deep_view() == extract::extract_spec(cleaned).1
            &&& extract::chapters_view(r.3@) == extract::extract_spec(cleaned).2
        }),
        ({
            let captured = sanitize::sanitize_spec(markup@).0;
            match captured {
                Option::Some(ib) => match extract::rendered_text(ib, 50) {
                    Option::Some(t) => r.0@ == infobox::clean_infobox_spec(t),
                    Option::None => r.0@ == Seq::<char>::empty(),
                },
                Option::None => r.0@ == Seq::<char>::empty(),
            }
        }),
{
    let (captured, cleaned) = sanitize::sanitize(markup);
    let info = match captured {
        Option::Some(ib) => infobox::infobox_text(ib.as_str()),
        Option::None => String::new(),
    };
    let (blocks, urls, chapters) = extract::parse_content_blocks(cleaned.as_str());
    (info, blocks, urls, chapters)
}

} // verus!
