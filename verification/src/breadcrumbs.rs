//! The per-project `breadcrumbs.json` sidecar: its in-memory
//! representation, the invariant tying the deprecated single-card URL
//! field to the card list, and every mutating operation on the video-link
//! and Trello-card lists.

use vstd::prelude::*;

use crate::media::{TrelloCard, TrelloCardView, VideoLink, VideoLinkView, opt_str_view};

verus! {

/// The most video links one project may carry.
pub const MAX_VIDEO_LINKS: usize = 20;

/// The most Trello cards one project may carry.
pub const MAX_TRELLO_CARDS: usize = 10;

/// One camera-footage file recorded in the sidecar: the camera number
/// parsed from its containing folder's name, the file name, and the path
/// relative to the project root.
#[derive(Clone, Debug, PartialEq, Eq)]
pub struct FileInfo {
    pub camera: i32,
    pub name: String,
    pub path: String,
}

/// Abstract value of a [`FileInfo`].
pub ghost struct FileInfoView {
    pub camera: int,
    pub name: Seq<char>,
    pub path: Seq<char>,
}

impl View for FileInfo {
    type V = FileInfoView;

    open spec fn view(&self) -> FileInfoView {
        FileInfoView { camera: self.camera as int, name: self.name@, path: self.path@ }
    }
}

/// The persisted sidecar of one project folder.
#[derive(Clone, Debug, PartialEq)]
pub struct BreadcrumbsFile {
    pub project_title: String,
    pub number_of_cameras: i32,
    pub files: Vec<FileInfo>,
    pub parent_folder: String,
    /// Append-only audit trail: automated updates append a fixed suffix
    /// rather than overwriting the original creator.
    pub created_by: String,
    pub creation_date_time: String,
    pub folder_size_bytes: Option<u64>,
    pub last_modified: Option<String>,
    pub scanned_by: Option<String>,
    /// Deprecated single-card URL, kept for backward-compatible readers;
    /// always mirrors the first entry of `trello_cards`.
    pub trello_card_url: Option<String>,
    pub video_links: Option<Vec<VideoLink>>,
    pub trello_cards: Option<Vec<TrelloCard>>,
}

/// Abstract value of a [`BreadcrumbsFile`].
pub ghost struct BreadcrumbsView {
    pub project_title: Seq<char>,
    pub number_of_cameras: int,
    pub files: Seq<FileInfoView>,
    pub parent_folder: Seq<char>,
    pub created_by: Seq<char>,
    pub creation_date_time: Seq<char>,
    pub folder_size_bytes: Option<u64>,
    pub last_modified: Option<Seq<char>>,
    pub scanned_by: Option<Seq<char>>,
    pub trello_card_url: Option<Seq<char>>,
    pub video_links: Option<Seq<VideoLinkView>>,
    pub trello_cards: Option<Seq<TrelloCardView>>,
}

/// Abstract value of an optional vector of viewable items.
pub open spec fn opt_vec_view<T: View>(o: &Option<Vec<T>>) -> Option<Seq<T::V>> {
    match o {
        Some(v) => Some(v@.map_values(|t: T| t@)),
        None => None,
    }
}

impl View for BreadcrumbsFile {
    type V = BreadcrumbsView;

    open spec fn view(&self) -> BreadcrumbsView {
        BreadcrumbsView {
            project_title: self.project_title@,
            number_of_cameras: self.number_of_cameras as int,
            files: self.files@.map_values(|f: FileInfo| f@),
            parent_folder: self.parent_folder@,
            created_by: self.created_by@,
            creation_date_time: self.creation_date_time@,
            folder_size_bytes: self.folder_size_bytes,
            last_modified: opt_str_view(&self.last_modified),
            scanned_by: opt_str_view(&self.scanned_by),
            trello_card_url: opt_str_view(&self.trello_card_url),
            video_links: opt_vec_view(&self.video_links),
            trello_cards: opt_vec_view(&self.trello_cards),
        }
    }
}

/// The video links of a sidecar, an empty sequence when the field is
/// absent.
pub open spec fn videos_or_empty(b: BreadcrumbsView) -> Seq<VideoLinkView> {
    match b.video_links {
        Some(vs) => vs,
        None => Seq::empty(),
    }
}

/// The Trello cards of a sidecar, an empty sequence when the field is
/// absent.
pub open spec fn cards_or_empty(b: BreadcrumbsView) -> Seq<TrelloCardView> {
    match b.trello_cards {
        Some(cs) => cs,
        None => Seq::empty(),
    }
}

/// The value the deprecated single-card URL field must hold for a given
/// card list: the first card's URL, or absent when there is no card.
pub open spec fn legacy_url_of(cards: Option<Seq<TrelloCardView>>) -> Option<Seq<char>> {
    match cards {
        Some(cs) => if cs.len() > 0 {
            Some(cs[0].url)
        } else {
            None
        },
        None => None,
    }
}

/// Invariant of a well-formed sidecar: the deprecated single-card URL
/// field mirrors the first entry of the card list.
pub open spec fn legacy_url_consistent(b: BreadcrumbsView) -> bool {
    b.trello_card_url == legacy_url_of(b.trello_cards)
}

/// The sidecar after a video-list mutation: the new list is in place and
/// the last-modified stamp is refreshed; everything else is unchanged.
pub open spec fn with_videos(b: BreadcrumbsView, vs: Seq<VideoLinkView>, now: Seq<char>) -> BreadcrumbsView {
    BreadcrumbsView { video_links: Some(vs), last_modified: Some(now), ..b }
}

/// The sidecar after a card-list mutation: the new list is in place, the
/// deprecated single-card URL field is re-derived from it, and the
/// last-modified stamp is refreshed; everything else is unchanged.
pub open spec fn with_cards(b: BreadcrumbsView, cs: Seq<TrelloCardView>, now: Seq<char>) -> BreadcrumbsView {
    BreadcrumbsView {
        trello_cards: Some(cs),
        trello_card_url: legacy_url_of(Some(cs)),
        last_modified: Some(now),
        ..b
    }
}

/// Why a sidecar operation was refused.
#[derive(Clone, Copy, Debug, PartialEq, Eq, Structural)]
pub enum BakerError {
    /// The video-link list already holds [`MAX_VIDEO_LINKS`] entries.
    VideoCapReached,
    /// The card list already holds [`MAX_TRELLO_CARDS`] entries.
    CardCapReached,
    /// A card with the same card id is already associated.
    DuplicateCard,
    /// A video index does not refer to an existing entry.
    VideoIndexOutOfBounds,
    /// A card index does not refer to an existing entry.
    CardIndexOutOfBounds,
    /// A reorder index does not refer to an existing entry.
    ReorderIndexOutOfBounds,
    /// The sidecar has no video-link list.
    NoVideos,
    /// The sidecar has no card list.
    NoCards,
}

/// Decides whether one of the cards carries the given card id.
fn has_card_id(cards: &Vec<TrelloCard>, id: &String) -> (r: bool)
    ensures
        r == BreadcrumbsFile::spec_has_card_id_up_to(
            cards@.map_values(|t: TrelloCard| t@),
            id@,
            cards@.len() as int,
        ),
{
    let ghost cs = cards@.map_values(|t: TrelloCard| t@);
    let mut i: usize = 0;
    while i < cards.len()
        invariant
            cs == cards@.map_values(|t: TrelloCard| t@),
            i <= cards@.len(),
            !BreadcrumbsFile::spec_has_card_id_up_to(cs, id@, i as int),
        decreases cards@.len() - i,
    {
        if cards[i].card_id == *id {
            proof {
                assert(cs[i as int].card_id == id@);
            }
            return true;
        }
        i += 1;
    }
    false
}

impl BakerError {
    /// The human-readable message of this error.
    pub fn message(&self) -> (r: String)
        ensures
            r@ == self.spec_message(),
    {
        let s = match self {
            BakerError::VideoCapReached => "Maximum of 20 videos per project reached",
            BakerError::CardCapReached => "Maximum of 10 Trello cards per project reached",
            BakerError::DuplicateCard => "This Trello card is already associated with the project",
            BakerError::VideoIndexOutOfBounds => "Video index out of bounds",
            BakerError::CardIndexOutOfBounds => "Card index out of bounds",
            BakerError::ReorderIndexOutOfBounds => "Index out of bounds",
            BakerError::NoVideos => "No videos found",
            BakerError::NoCards => "No cards found",
        };
        s.to_owned()
    }

    /// The character sequence [`Self::message`] returns.
    pub open spec fn spec_message(&self) -> Seq<char> {
        match self {
            BakerError::VideoCapReached => "Maximum of 20 videos per project reached"@,
            BakerError::CardCapReached => "Maximum of 10 Trello cards per project reached"@,
            BakerError::DuplicateCard => "This Trello card is already associated with the project"@,
            BakerError::VideoIndexOutOfBounds => "Video index out of bounds"@,
            BakerError::CardIndexOutOfBounds => "Card index out of bounds"@,
            BakerError::ReorderIndexOutOfBounds => "Index out of bounds"@,
            BakerError::NoVideos => "No videos found"@,
            BakerError::NoCards => "No cards found"@,
        }
    }
}

impl BreadcrumbsFile {
    /// Appends a video link, refusing once the cap of twenty is reached.
    /// On success the last-modified stamp is set to `now`.
    pub fn associate_video_link(&mut self, link: VideoLink, now: &str) -> (r: Result<(), BakerError>)
        ensures
            videos_or_empty(old(self)@).len() >= MAX_VIDEO_LINKS ==> {
                &&& r == Err::<(), BakerError>(BakerError::VideoCapReached)
                &&& *final(self) == *old(self)
            },
            videos_or_empty(old(self)@).len() < MAX_VIDEO_LINKS ==> {
                &&& r == Ok::<(), BakerError>(())
                &&& final(self)@ == with_videos(
                    old(self)@,
                    videos_or_empty(old(self)@).push(link@),
                    now@,
                )
            },
    {
        if self.video_links.is_none() {
            self.video_links = Some(Vec::new());
            proof {
                assert(videos_or_empty(self@) =~= videos_or_empty(old(self)@));
            }
        }
        let videos = self.video_links.as_mut().unwrap();
        if videos.len() >= MAX_VIDEO_LINKS {
            proof {
                assert(*final(self) == *old(self)) by {
                    assert(old(self).video_links is Some);
                }
            }
            return Err(BakerError::VideoCapReached);
        }
        videos.push(link);
        self.last_modified = Some(now.to_owned());
        proof {
            assert(videos_or_empty(self@) =~= videos_or_empty(old(self)@).push(link@));
            assert(final(self)@ == with_videos(
                old(self)@,
                videos_or_empty(old(self)@).push(link@),
                now@,
            ));
        }
        Ok(())
    }

    /// Removes the video link at `index`.  Fails when the sidecar has no
    /// video-link list or the index is out of bounds; on success the
    /// last-modified stamp is set to `now`.
    pub fn remove_video_link(&mut self, index: usize, now: &str) -> (r: Result<(), BakerError>)
        ensures
            old(self)@.video_links is None ==> {
                &&& r == Err::<(), BakerError>(BakerError::NoVideos)
                &&& *final(self) == *old(self)
            },
            old(self)@.video_links is Some && index >= videos_or_empty(old(self)@).len() ==> {
                &&& r == Err::<(), BakerError>(BakerError::VideoIndexOutOfBounds)
                &&& *final(self) == *old(self)
            },
            old(self)@.video_links is Some && index < videos_or_empty(old(self)@).len() ==> {
                &&& r == Ok::<(), BakerError>(())
                &&& final(self)@ == with_videos(
                    old(self)@,
                    videos_or_empty(old(self)@).remove(index as int),
                    now@,
                )
            },
    {
        match self.video_links.as_mut() {
            None => Err(BakerError::NoVideos),
            Some(videos) => {
                if index >= videos.len() {
                    return Err(BakerError::VideoIndexOutOfBounds);
                }
                videos.remove(index);
                self.last_modified = Some(now.to_owned());
                proof {
                    assert(videos_or_empty(self@) =~= videos_or_empty(old(self)@).remove(
                        index as int,
                    ));
                }
                Ok(())
            },
        }
    }

    /// Replaces the video link at `index`.  Fails when the sidecar has no
    /// video-link list or the index is out of bounds; on success the
    /// last-modified stamp is set to `now`.
    pub fn update_video_link(&mut self, index: usize, link: VideoLink, now: &str) -> (r: Result<
        (),
        BakerError,
    >)
        ensures
            old(self)@.video_links is None ==> {
                &&& r == Err::<(), BakerError>(BakerError::NoVideos)
                &&& *final(self) == *old(self)
            },
            old(self)@.video_links is Some && index >= videos_or_empty(old(self)@).len() ==> {
                &&& r == Err::<(), BakerError>(BakerError::VideoIndexOutOfBounds)
                &&& *final(self) == *old(self)
            },
            old(self)@.video_links is Some && index < videos_or_empty(old(self)@).len() ==> {
                &&& r == Ok::<(), BakerError>(())
                &&& final(self)@ == with_videos(
                    old(self)@,
                    videos_or_empty(old(self)@).update(index as int, link@),
                    now@,
                )
            },
    {
        match self.video_links.as_mut() {
            None => Err(BakerError::NoVideos),
            Some(videos) => {
                if index >= videos.len() {
                    return Err(BakerError::VideoIndexOutOfBounds);
                }
                videos.set(index, link);
                self.last_modified = Some(now.to_owned());
                proof {
                    assert(videos_or_empty(self@) =~= videos_or_empty(old(self)@).update(
                        index as int,
                        link@,
                    ));
                }
                Ok(())
            },
        }
    }

    /// Moves the video link at `from_index` so that it ends up at
    /// `to_index`, keeping the relative order of the others.  Fails when
    /// the sidecar has no video-link list or either index is out of
    /// bounds; on success the last-modified stamp is set to `now`.
    pub fn reorder_video_links(&mut self, from_index: usize, to_index: usize, now: &str) -> (r:
        Result<(), BakerError>)
        ensures
            old(self)@.video_links is None ==> {
                &&& r == Err::<(), BakerError>(BakerError::NoVideos)
                &&& *final(self) == *old(self)
            },
            old(self)@.video_links is Some && (from_index >= videos_or_empty(old(self)@).len()
                || to_index >= videos_or_empty(old(self)@).len()) ==> {
                &&& r == Err::<(), BakerError>(BakerError::ReorderIndexOutOfBounds)
                &&& *final(self) == *old(self)
            },
            old(self)@.video_links is Some && from_index < videos_or_empty(old(self)@).len()
                && to_index < videos_or_empty(old(self)@).len() ==> {
                &&& r == Ok::<(), BakerError>(())
                &&& final(self)@ == with_videos(
                    old(self)@,
                    videos_or_empty(old(self)@).remove(from_index as int).insert(
                        to_index as int,
                        videos_or_empty(old(self)@)[from_index as int],
                    ),
                    now@,
                )
            },
    {
        match self.video_links.as_mut() {
            None => Err(BakerError::NoVideos),
            Some(videos) => {
                if from_index >= videos.len() || to_index >= videos.len() {
                    return Err(BakerError::ReorderIndexOutOfBounds);
                }
                let link = videos.remove(from_index);
                videos.insert(to_index, link);
                self.last_modified = Some(now.to_owned());
                proof {
                    assert(videos_or_empty(self@) =~= videos_or_empty(old(self)@).remove(
                        from_index as int,
                    ).insert(to_index as int, videos_or_empty(old(self)@)[from_index as int]));
                }
                Ok(())
            },
        }
    }

    /// Holds when one of the first `n` cards carries the given card id.
    pub open spec fn spec_has_card_id_up_to(cs: Seq<TrelloCardView>, id: Seq<char>, n: int) -> bool {
        exists|i: int| 0 <= i < n && cs[i].card_id == id
    }

    /// Holds when some card of the sidecar carries the given card id.
    pub open spec fn spec_has_card_id(b: BreadcrumbsView, id: Seq<char>) -> bool {
        Self::spec_has_card_id_up_to(cards_or_empty(b), id, cards_or_empty(b).len() as int)
    }

    /// Appends a Trello card, refusing once the cap of ten is reached or
    /// when a card with the same id is already present.  On success the
    /// deprecated single-card URL field is re-derived and the
    /// last-modified stamp is set to `now`.
    pub fn associate_trello_card(&mut self, card: TrelloCard, now: &str) -> (r: Result<
        (),
        BakerError,
    >)
        ensures
            cards_or_empty(old(self)@).len() >= MAX_TRELLO_CARDS ==> {
                &&& r == Err::<(), BakerError>(BakerError::CardCapReached)
                &&& *final(self) == *old(self)
            },
            cards_or_empty(old(self)@).len() < MAX_TRELLO_CARDS && Self::spec_has_card_id(
                old(self)@,
                card@.card_id,
            ) ==> {
                &&& r == Err::<(), BakerError>(BakerError::DuplicateCard)
                &&& *final(self) == *old(self)
            },
            cards_or_empty(old(self)@).len() < MAX_TRELLO_CARDS && !Self::spec_has_card_id(
                old(self)@,
                card@.card_id,
            ) ==> {
                &&& r == Ok::<(), BakerError>(())
                &&& final(self)@ == with_cards(
                    old(self)@,
                    cards_or_empty(old(self)@).push(card@),
                    now@,
                )
            },
            r is Ok ==> legacy_url_consistent(final(self)@),
    {
        let ghost cs = cards_or_empty(old(self)@);
        let count = match self.trello_cards.as_ref() {
            Some(c) => c.len(),
            None => 0,
        };
        if count >= MAX_TRELLO_CARDS {
            return Err(BakerError::CardCapReached);
        }
        let duplicate = match self.trello_cards.as_ref() {
            Some(c) => has_card_id(c, &card.card_id),
            None => false,
        };
        if duplicate {
            return Err(BakerError::DuplicateCard);
        }
        if self.trello_cards.is_none() {
            self.trello_cards = Some(Vec::new());
            proof {
                assert(cards_or_empty(self@) =~= cs);
            }
        }
        let cards = self.trello_cards.as_mut().unwrap();
        cards.push(card);
        let first_url = self.trello_cards.as_ref().unwrap()[0].url.clone();
        self.trello_card_url = Some(first_url);
        self.last_modified = Some(now.to_owned());
        proof {
            assert(cards_or_empty(self@) =~= cs.push(card@));
            assert(final(self)@ == with_cards(old(self)@, cs.push(card@), now@));
        }
        Ok(())
    }

    /// Removes the Trello card at `index`.  Fails when the sidecar has no
    /// card list or the index is out of bounds; on success the deprecated
    /// single-card URL field is re-derived (absent again when the last
    /// card goes) and the last-modified stamp is set to `now`.
    pub fn remove_trello_card(&mut self, index: usize, now: &str) -> (r: Result<(), BakerError>)
        ensures
            old(self)@.trello_cards is None ==> {
                &&& r == Err::<(), BakerError>(BakerError::NoCards)
                &&& *final(self) == *old(self)
            },
            old(self)@.trello_cards is Some && index >= cards_or_empty(old(self)@).len() ==> {
                &&& r == Err::<(), BakerError>(BakerError::CardIndexOutOfBounds)
                &&& *final(self) == *old(self)
            },
            old(self)@.trello_cards is Some && index < cards_or_empty(old(self)@).len() ==> {
                &&& r == Ok::<(), BakerError>(())
                &&& final(self)@ == with_cards(
                    old(self)@,
                    cards_or_empty(old(self)@).remove(index as int),
                    now@,
                )
            },
            r is Ok ==> legacy_url_consistent(final(self)@),
    {
        if self.trello_cards.is_none() {
            return Err(BakerError::NoCards);
        }
        let cards = self.trello_cards.as_mut().unwrap();
        if index >= cards.len() {
            return Err(BakerError::CardIndexOutOfBounds);
        }
        cards.remove(index);
        proof {
            assert(cards_or_empty(self@) =~= cards_or_empty(old(self)@).remove(index as int));
        }
        let cards_ref = self.trello_cards.as_ref().unwrap();
        if cards_ref.len() > 0 {
            let first_url = cards_ref[0].url.clone();
            self.trello_card_url = Some(first_url);
        } else {
            self.trello_card_url = None;
        }
        self.last_modified = Some(now.to_owned());
        proof {
            assert(final(self)@ == with_cards(
                old(self)@,
                cards_or_empty(old(self)@).remove(index as int),
                now@,
            ));
        }
        Ok(())
    }
}

/// The card list a reader of the sidecar sees, after legacy migration:
/// the card list itself when it is present and non-empty; otherwise a
/// single card synthesized from the deprecated single-card URL field,
/// when that field is present and a card id can be extracted from it;
/// otherwise no card.  The synthesized card carries the placeholder title
/// `Card <id>`.
pub open spec fn spec_migrated_cards(b: BreadcrumbsView) -> Seq<TrelloCardView> {
    match b.trello_cards {
        Some(cs) if cs.len() > 0 => cs,
        _ => match b.trello_card_url {
            Some(url) => match crate::trello::spec_extract_card_id(url) {
                Some(id) => seq![
                    TrelloCardView {
                        url: url,
                        card_id: id,
                        title: "Card "@ + id,
                        board_name: None,
                        last_fetched: None,
                    },
                ],
                None => Seq::empty(),
            },
            None => Seq::empty(),
        },
    }
}

impl BreadcrumbsFile {
    /// The video links of the sidecar, an empty list when the field is
    /// absent.
    pub fn video_links_list(&self) -> (r: Vec<VideoLink>)
        ensures
            r@.map_values(|v: VideoLink| v@) == videos_or_empty(self@),
    {
        let mut r: Vec<VideoLink> = Vec::new();
        match self.video_links.as_ref() {
            None => {
                proof {
                    assert(r@.map_values(|v: VideoLink| v@) =~= videos_or_empty(self@));
                }
            },
            Some(vs) => {
                let mut i: usize = 0;
                while i < vs.len()
                    invariant
                        self@.video_links == Some(vs@.map_values(|v: VideoLink| v@)),
                        i <= vs@.len(),
                        r@.map_values(|v: VideoLink| v@) == vs@.map_values(
                            |v: VideoLink| v@,
                        ).subrange(0, i as int),
                    decreases vs@.len() - i,
                {
                    let ghost prev = r@;
                    let link = crate::media::clone_video_link(&vs[i]);
                    proof {
                        broadcast use Seq::lemma_push_map_commute;

                        assert(prev.map_values(|v: VideoLink| v@).len() == i as int);
                        assert(prev.push(link).map_values(|v: VideoLink| v@) =~= vs@.map_values(
                            |v: VideoLink| v@,
                        ).subrange(0, i + 1));
                    }
                    r.push(link);
                    i += 1;
                }
                proof {
                    assert(r@.map_values(|v: VideoLink| v@) =~= videos_or_empty(self@));
                }
            },
        }
        r
    }

    /// The card list a reader of the sidecar sees, after legacy
    /// migration; see [`spec_migrated_cards`].  The migration is computed
    /// on read and is not itself persisted.
    pub fn migrated_trello_cards(&self) -> (r: Vec<TrelloCard>)
        ensures
            r@.map_values(|c: TrelloCard| c@) == spec_migrated_cards(self@),
    {
        let has_cards = match self.trello_cards.as_ref() {
            Some(cs) => cs.len() > 0,
            None => false,
        };
        if has_cards {
            let cs = self.trello_cards.as_ref().unwrap();
            let mut r: Vec<TrelloCard> = Vec::new();
            let mut i: usize = 0;
            while i < cs.len()
                invariant
                    self@.trello_cards == Some(cs@.map_values(|c: TrelloCard| c@)),
                    i <= cs@.len(),
                    r@.map_values(|c: TrelloCard| c@) == cs@.map_values(
                        |c: TrelloCard| c@,
                    ).subrange(0, i as int),
                decreases cs@.len() - i,
            {
                let ghost prev = r@;
                let card = crate::media::clone_trello_card(&cs[i]);
                proof {
                    broadcast use Seq::lemma_push_map_commute;

                    assert(prev.map_values(|c: TrelloCard| c@).len() == i as int);
                    assert(prev.push(card).map_values(|c: TrelloCard| c@) =~= cs@.map_values(
                        |c: TrelloCard| c@,
                    ).subrange(0, i + 1));
                }
                r.push(card);
                i += 1;
            }
            proof {
                assert(r@.map_values(|c: TrelloCard| c@) =~= spec_migrated_cards(self@));
            }
            return r;
        }
        let mut r: Vec<TrelloCard> = Vec::new();
        match self.trello_card_url.as_ref() {
            None => {
                proof {
                    assert(r@.map_values(|c: TrelloCard| c@) =~= spec_migrated_cards(self@));
                }
            },
            Some(url) => {
                match crate::trello::extract_trello_card_id(url.as_str()) {
                    None => {
                        proof {
                            assert(r@.map_values(|c: TrelloCard| c@) =~= spec_migrated_cards(
                                self@,
                            ));
                        }
                    },
                    Some(id) => {
                        let title = String::from_str("Card ").concat(id.as_str());
                        r.push(TrelloCard {
                            url: url.clone(),
                            card_id: id,
                            title,
                            board_name: None,
                            last_fetched: None,
                        });
                        proof {
                            assert(r@.map_values(|c: TrelloCard| c@) =~= spec_migrated_cards(
                                self@,
                            ));
                        }
                    },
                }
            },
        }
        r
    }
}

/// Associating a Trello card with a sidecar that had none and then
/// removing it leaves the deprecated single-card URL field absent again.
pub proof fn lemma_deprecated_url_returns_to_absent(
    b: BreadcrumbsView,
    card: TrelloCardView,
    now1: Seq<char>,
    now2: Seq<char>,
)
    requires
        cards_or_empty(b).len() == 0,
    ensures
        ({
            let after_add = with_cards(b, cards_or_empty(b).push(card), now1);
            let after_remove = with_cards(
                after_add,
                cards_or_empty(after_add).remove(0),
                now2,
            );
            after_remove.trello_card_url is None
        }),
{
    let after_add = with_cards(b, cards_or_empty(b).push(card), now1);
    assert(cards_or_empty(after_add).remove(0) =~= Seq::<TrelloCardView>::empty());
}

} // verus!
