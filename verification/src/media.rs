//! Video links and Trello cards that a project's sidecar can carry, and
//! the abstract values the contracts speak about.

use vstd::prelude::*;

verus! {

/// A video link (typically a hosted render) associated with a project.
#[derive(Clone, Debug, PartialEq, Eq)]
pub struct VideoLink {
    /// Full video URL.
    pub url: String,
    /// Extracted hosting-service video id, when known.
    pub sprout_video_id: Option<String>,
    /// User-provided or fetched video title.
    pub title: String,
    /// Cached thumbnail URL, when known.
    pub thumbnail_url: Option<String>,
    /// Timestamp of upload, when known.
    pub upload_date: Option<String>,
    /// Original file name from the `Renders` folder, when known.
    pub source_render_file: Option<String>,
}

/// A Trello card associated with a project.
#[derive(Clone, Debug, PartialEq, Eq)]
pub struct TrelloCard {
    /// Full Trello card URL.
    pub url: String,
    /// Extracted card id.
    pub card_id: String,
    /// Fetched card title.
    pub title: String,
    /// Board name, when known.
    pub board_name: Option<String>,
    /// Timestamp of the last title fetch, when known.
    pub last_fetched: Option<String>,
}

/// Asset URLs of a hosted video.
#[derive(Clone, Debug, PartialEq, Eq)]
pub struct SproutAssets {
    /// Poster frame / thumbnail URLs.
    pub poster_frames: Vec<String>,
}

/// Abstract value of a [`VideoLink`].
pub ghost struct VideoLinkView {
    pub url: Seq<char>,
    pub sprout_video_id: Option<Seq<char>>,
    pub title: Seq<char>,
    pub thumbnail_url: Option<Seq<char>>,
    pub upload_date: Option<Seq<char>>,
    pub source_render_file: Option<Seq<char>>,
}

/// Abstract value of a [`TrelloCard`].
pub ghost struct TrelloCardView {
    pub url: Seq<char>,
    pub card_id: Seq<char>,
    pub title: Seq<char>,
    pub board_name: Option<Seq<char>>,
    pub last_fetched: Option<Seq<char>>,
}

/// Abstract value of an `Option<String>`: the character sequence, if any.
pub open spec fn opt_str_view(o: &Option<String>) -> Option<Seq<char>> {
    match o {
        Some(s) => Some(s@),
        None => None,
    }
}

impl View for VideoLink {
    type V = VideoLinkView;

    open spec fn view(&self) -> VideoLinkView {
        VideoLinkView {
            url: self.url@,
            sprout_video_id: opt_str_view(&self.sprout_video_id),
            title: self.title@,
            thumbnail_url: opt_str_view(&self.thumbnail_url),
            upload_date: opt_str_view(&self.upload_date),
            source_render_file: opt_str_view(&self.source_render_file),
        }
    }
}

impl View for TrelloCard {
    type V = TrelloCardView;

    open spec fn view(&self) -> TrelloCardView {
        TrelloCardView {
            url: self.url@,
            card_id: self.card_id@,
            title: self.title@,
            board_name: opt_str_view(&self.board_name),
            last_fetched: opt_str_view(&self.last_fetched),
        }
    }
}

/// Copies an optional string, keeping its abstract value.
pub fn clone_opt_string(o: &Option<String>) -> (r: Option<String>)
    ensures
        opt_str_view(&r) == opt_str_view(o),
{
    match o {
        Some(s) => Some(s.clone()),
        None => None,
    }
}

/// Copies a video link, keeping its abstract value.
pub fn clone_video_link(v: &VideoLink) -> (r: VideoLink)
    ensures
        r@ == v@,
{
    VideoLink {
        url: v.url.clone(),
        sprout_video_id: clone_opt_string(&v.sprout_video_id),
        title: v.title.clone(),
        thumbnail_url: clone_opt_string(&v.thumbnail_url),
        upload_date: clone_opt_string(&v.upload_date),
        source_render_file: clone_opt_string(&v.source_render_file),
    }
}

/// Copies a Trello card, keeping its abstract value.
pub fn clone_trello_card(c: &TrelloCard) -> (r: TrelloCard)
    ensures
        r@ == c@,
{
    TrelloCard {
        url: c.url.clone(),
        card_id: c.card_id.clone(),
        title: c.title.clone(),
        board_name: clone_opt_string(&c.board_name),
        last_fetched: clone_opt_string(&c.last_fetched),
    }
}

impl View for SproutAssets {
    type V = Seq<Seq<char>>;

    open spec fn view(&self) -> Seq<Seq<char>> {
        self.poster_frames@.map_values(|s: String| s@)
    }
}

} // verus!
