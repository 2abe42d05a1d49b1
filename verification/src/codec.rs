//! The sidecar's document schema: how a [`BreadcrumbsFile`] is laid out
//! as a JSON document and how it is read back, including the legacy
//! fields that older readers expect.  Optional list fields are omitted
//! when absent; the other optional fields are written as `null`.

use vstd::prelude::*;

use crate::breadcrumbs::{BreadcrumbsFile, BreadcrumbsView, FileInfo, FileInfoView};
use crate::json::{JsonMember, JsonValue, JsonView, json_view, json_views, member_views};
use crate::media::{TrelloCard, TrelloCardView, VideoLink, VideoLinkView};

verus! {

/// A 32-bit integer as a JSON number.
pub open spec fn num_of_i32(n: int) -> JsonView {
    JsonView::Num {
        neg: n < 0,
        mag: (if n < 0 {
            -n
        } else {
            n
        }) as u64,
    }
}

/// An optional size as a JSON value: the number, or `null`.
pub open spec fn json_of_opt_u64(o: Option<u64>) -> JsonView {
    match o {
        Some(n) => JsonView::Num { neg: false, mag: n },
        None => JsonView::Null,
    }
}

/// An optional string as a JSON value: the string, or `null`.
pub open spec fn json_of_opt_str(o: Option<Seq<char>>) -> JsonView {
    match o {
        Some(s) => JsonView::Str { s },
        None => JsonView::Null,
    }
}

/// The member an optional string field contributes when the schema
/// omits it entirely where absent.
pub open spec fn opt_member(key: Seq<char>, o: Option<Seq<char>>) -> Seq<(Seq<char>, JsonView)> {
    match o {
        Some(s) => seq![(key, JsonView::Str { s })],
        None => Seq::empty(),
    }
}

/// One recorded footage file as a JSON object.
pub open spec fn file_json(f: FileInfoView) -> JsonView {
    JsonView::Obj {
        members: seq![
            ("camera"@, num_of_i32(f.camera)),
            ("name"@, JsonView::Str { s: f.name }),
            ("path"@, JsonView::Str { s: f.path }),
        ],
    }
}

/// A list of recorded footage files as JSON objects.
pub open spec fn files_json(fs: Seq<FileInfoView>) -> Seq<JsonView> {
    Seq::new(fs.len(), |i: int| file_json(fs[i]))
}

/// One video link as a JSON object; absent optional fields are omitted.
pub open spec fn video_json(v: VideoLinkView) -> JsonView {
    JsonView::Obj {
        members: seq![("url"@, JsonView::Str { s: v.url })] + opt_member(
            "sproutVideoId"@,
            v.sprout_video_id,
        ) + seq![("title"@, JsonView::Str { s: v.title })] + opt_member(
            "thumbnailUrl"@,
            v.thumbnail_url,
        ) + opt_member("uploadDate"@, v.upload_date) + opt_member(
            "sourceRenderFile"@,
            v.source_render_file,
        ),
    }
}

/// A list of video links as JSON objects.
pub open spec fn videos_json(vs: Seq<VideoLinkView>) -> Seq<JsonView> {
    Seq::new(vs.len(), |i: int| video_json(vs[i]))
}

/// One Trello card as a JSON object; absent optional fields are
/// omitted.
pub open spec fn card_json(c: TrelloCardView) -> JsonView {
    JsonView::Obj {
        members: seq![
            ("url"@, JsonView::Str { s: c.url }),
            ("cardId"@, JsonView::Str { s: c.card_id }),
            ("title"@, JsonView::Str { s: c.title }),
        ] + opt_member("boardName"@, c.board_name) + opt_member("lastFetched"@, c.last_fetched),
    }
}

/// A list of Trello cards as JSON objects.
pub open spec fn cards_json(cs: Seq<TrelloCardView>) -> Seq<JsonView> {
    Seq::new(cs.len(), |i: int| card_json(cs[i]))
}

/// The ten members every sidecar document carries, in their fixed
/// order.
pub open spec fn base_members(b: BreadcrumbsView) -> Seq<(Seq<char>, JsonView)> {
    seq![
        ("projectTitle"@, JsonView::Str { s: b.project_title }),
        ("numberOfCameras"@, num_of_i32(b.number_of_cameras)),
        ("files"@, JsonView::Arr { items: files_json(b.files) }),
        ("parentFolder"@, JsonView::Str { s: b.parent_folder }),
        ("createdBy"@, JsonView::Str { s: b.created_by }),
        ("creationDateTime"@, JsonView::Str { s: b.creation_date_time }),
        ("folderSizeBytes"@, json_of_opt_u64(b.folder_size_bytes)),
        ("lastModified"@, json_of_opt_str(b.last_modified)),
        ("scannedBy"@, json_of_opt_str(b.scanned_by)),
        ("trelloCardUrl"@, json_of_opt_str(b.trello_card_url)),
    ]
}

/// The member the video-link list contributes: present exactly when the
/// sidecar carries the list.
pub open spec fn videos_member(b: BreadcrumbsView) -> Seq<(Seq<char>, JsonView)> {
    match b.video_links {
        Some(vs) => seq![("videoLinks"@, JsonView::Arr { items: videos_json(vs) })],
        None => Seq::empty(),
    }
}

/// The member the card list contributes: present exactly when the
/// sidecar carries the list.
pub open spec fn cards_member(b: BreadcrumbsView) -> Seq<(Seq<char>, JsonView)> {
    match b.trello_cards {
        Some(cs) => seq![("trelloCards"@, JsonView::Arr { items: cards_json(cs) })],
        None => Seq::empty(),
    }
}

/// A whole sidecar as a JSON document.
pub open spec fn spec_json_of(b: BreadcrumbsView) -> JsonView {
    JsonView::Obj { members: base_members(b) + videos_member(b) + cards_member(b) }
}

/// A 32-bit integer as a JSON value, executed.
fn i32_to_json(n: i32) -> (r: JsonValue)
    ensures
        json_view(r) == num_of_i32(n as int),
{
    if n < 0 {
        let wide: i64 = n as i64;
        let mag: u64 = (-wide) as u64;
        JsonValue::Num { neg: true, mag }
    } else {
        JsonValue::Num { neg: false, mag: n as u64 }
    }
}

/// An optional size as a JSON value, executed.
fn opt_u64_to_json(o: &Option<u64>) -> (r: JsonValue)
    ensures
        json_view(r) == json_of_opt_u64(*o),
{
    match o {
        Some(n) => JsonValue::Num { neg: false, mag: *n },
        None => JsonValue::Null,
    }
}

/// An optional string as a JSON value, executed.
fn opt_str_to_json(o: &Option<String>) -> (r: JsonValue)
    ensures
        json_view(r) == json_of_opt_str(crate::media::opt_str_view(o)),
{
    match o {
        Some(s) => JsonValue::Str(s.clone()),
        None => JsonValue::Null,
    }
}

/// One recorded footage file as a JSON object, executed.
fn file_to_json(f: &FileInfo) -> (r: JsonValue)
    ensures
        json_view(r) == file_json(f@),
{
    let mut ms: Vec<JsonMember> = Vec::new();
    ms.push(JsonMember { key: "camera".to_owned(), value: i32_to_json(f.camera) });
    ms.push(JsonMember { key: "name".to_owned(), value: JsonValue::Str(f.name.clone()) });
    ms.push(JsonMember { key: "path".to_owned(), value: JsonValue::Str(f.path.clone()) });
    let r = JsonValue::Obj(ms);
    proof {
        crate::json::lemma_member_views_elts(r->Obj_0@);
        assert(member_views(r->Obj_0@) =~~= file_json(f@)->Obj_members);
    }
    r
}

/// One video link as a JSON object, executed.
fn video_to_json(v: &VideoLink) -> (r: JsonValue)
    ensures
        json_view(r) == video_json(v@),
{
    let mut ms: Vec<JsonMember> = Vec::new();
    ms.push(JsonMember { key: "url".to_owned(), value: JsonValue::Str(v.url.clone()) });
    if let Some(s) = v.sprout_video_id.as_ref() {
        ms.push(JsonMember { key: "sproutVideoId".to_owned(), value: JsonValue::Str(s.clone()) });
    }
    ms.push(JsonMember { key: "title".to_owned(), value: JsonValue::Str(v.title.clone()) });
    if let Some(s) = v.thumbnail_url.as_ref() {
        ms.push(JsonMember { key: "thumbnailUrl".to_owned(), value: JsonValue::Str(s.clone()) });
    }
    if let Some(s) = v.upload_date.as_ref() {
        ms.push(JsonMember { key: "uploadDate".to_owned(), value: JsonValue::Str(s.clone()) });
    }
    if let Some(s) = v.source_render_file.as_ref() {
        ms.push(
            JsonMember { key: "sourceRenderFile".to_owned(), value: JsonValue::Str(s.clone()) },
        );
    }
    let r = JsonValue::Obj(ms);
    proof {
        crate::json::lemma_member_views_elts(r->Obj_0@);
        assert(member_views(r->Obj_0@) =~~= video_json(v@)->Obj_members);
    }
    r
}

/// One Trello card as a JSON object, executed.
fn card_to_json(c: &TrelloCard) -> (r: JsonValue)
    ensures
        json_view(r) == card_json(c@),
{
    let mut ms: Vec<JsonMember> = Vec::new();
    ms.push(JsonMember { key: "url".to_owned(), value: JsonValue::Str(c.url.clone()) });
    ms.push(JsonMember { key: "cardId".to_owned(), value: JsonValue::Str(c.card_id.clone()) });
    ms.push(JsonMember { key: "title".to_owned(), value: JsonValue::Str(c.title.clone()) });
    if let Some(s) = c.board_name.as_ref() {
        ms.push(JsonMember { key: "boardName".to_owned(), value: JsonValue::Str(s.clone()) });
    }
    if let Some(s) = c.last_fetched.as_ref() {
        ms.push(JsonMember { key: "lastFetched".to_owned(), value: JsonValue::Str(s.clone()) });
    }
    let r = JsonValue::Obj(ms);
    proof {
        crate::json::lemma_member_views_elts(r->Obj_0@);
        assert(member_views(r->Obj_0@) =~~= card_json(c@)->Obj_members);
    }
    r
}

/// A whole sidecar as a JSON document, executed.
pub fn breadcrumbs_to_json(b: &BreadcrumbsFile) -> (r: JsonValue)
    ensures
        json_view(r) == spec_json_of(b@),
{
    let ghost fv = b.files@.map_values(|f: FileInfo| f@);
    let mut files: Vec<JsonValue> = Vec::new();
    let mut i: usize = 0;
    while i < b.files.len()
        invariant
            i <= b.files@.len(),
            fv == b.files@.map_values(|f: FileInfo| f@),
            files@.len() == i,
            forall|t: int| 0 <= t < i ==> json_view(#[trigger] files@[t]) == file_json(fv[t]),
        decreases b.files@.len() - i,
    {
        let fj = file_to_json(&b.files[i]);
        files.push(fj);
        i += 1;
    }
    proof {
        crate::json::lemma_json_views_elts(files@);
        assert(json_views(files@) =~~= files_json(fv));
    }
    let mut ms: Vec<JsonMember> = Vec::new();
    ms.push(
        JsonMember {
            key: "projectTitle".to_owned(),
            value: JsonValue::Str(b.project_title.clone()),
        },
    );
    ms.push(
        JsonMember { key: "numberOfCameras".to_owned(), value: i32_to_json(b.number_of_cameras) },
    );
    ms.push(JsonMember { key: "files".to_owned(), value: JsonValue::Arr(files) });
    ms.push(
        JsonMember {
            key: "parentFolder".to_owned(),
            value: JsonValue::Str(b.parent_folder.clone()),
        },
    );
    ms.push(
        JsonMember { key: "createdBy".to_owned(), value: JsonValue::Str(b.created_by.clone()) },
    );
    ms.push(
        JsonMember {
            key: "creationDateTime".to_owned(),
            value: JsonValue::Str(b.creation_date_time.clone()),
        },
    );
    ms.push(
        JsonMember { key: "folderSizeBytes".to_owned(), value: opt_u64_to_json(
            &b.folder_size_bytes,
        ) },
    );
    ms.push(
        JsonMember { key: "lastModified".to_owned(), value: opt_str_to_json(&b.last_modified) },
    );
    ms.push(JsonMember { key: "scannedBy".to_owned(), value: opt_str_to_json(&b.scanned_by) });
    ms.push(
        JsonMember {
            key: "trelloCardUrl".to_owned(),
            value: opt_str_to_json(&b.trello_card_url),
        },
    );
    if let Some(vs) = b.video_links.as_ref() {
        let ghost vv = vs@.map_values(|v: VideoLink| v@);
        let mut items: Vec<JsonValue> = Vec::new();
        let mut k: usize = 0;
        while k < vs.len()
            invariant
                k <= vs@.len(),
                vv == vs@.map_values(|v: VideoLink| v@),
                items@.len() == k,
                forall|t: int| 0 <= t < k ==> json_view(#[trigger] items@[t]) == video_json(
                    vv[t],
                ),
            decreases vs@.len() - k,
        {
            let vj = video_to_json(&vs[k]);
            items.push(vj);
            k += 1;
        }
        proof {
            crate::json::lemma_json_views_elts(items@);
            assert(json_views(items@) =~~= videos_json(vv));
        }
        ms.push(JsonMember { key: "videoLinks".to_owned(), value: JsonValue::Arr(items) });
    }
    if let Some(cs) = b.trello_cards.as_ref() {
        let ghost cv = cs@.map_values(|c: TrelloCard| c@);
        let mut items: Vec<JsonValue> = Vec::new();
        let mut k: usize = 0;
        while k < cs.len()
            invariant
                k <= cs@.len(),
                cv == cs@.map_values(|c: TrelloCard| c@),
                items@.len() == k,
                forall|t: int| 0 <= t < k ==> json_view(#[trigger] items@[t]) == card_json(
                    cv[t],
                ),
            decreases cs@.len() - k,
        {
            let cj = card_to_json(&cs[k]);
            items.push(cj);
            k += 1;
        }
        proof {
            crate::json::lemma_json_views_elts(items@);
            assert(json_views(items@) =~~= cards_json(cv));
        }
        ms.push(JsonMember { key: "trelloCards".to_owned(), value: JsonValue::Arr(items) });
    }
    let r = JsonValue::Obj(ms);
    proof {
        crate::json::lemma_member_views_elts(r->Obj_0@);
        assert(member_views(r->Obj_0@) =~~= base_members(b@) + videos_member(b@) + cards_member(
            b@,
        ));
    }
    r
}

/// Writes a sidecar as its pretty-printed JSON document text: every
/// member and array element on its own indented line, human-diffable.
pub fn serialize_breadcrumbs(b: &BreadcrumbsFile) -> (r: String)
    ensures
        r@ == crate::json::ser_pretty_value(spec_json_of(b@), 0),
{
    let j = breadcrumbs_to_json(b);
    crate::json::value_to_pretty_string(&j)
}

/// The first value bound to `key` in a member list, scanning from
/// position `i`.
pub open spec fn find_from(
    ms: Seq<(Seq<char>, JsonView)>,
    key: Seq<char>,
    i: int,
) -> Option<JsonView>
    decreases ms.len() - i when 0 <= i
{
    if i >= ms.len() {
        None
    } else if ms[i].0 == key {
        Some(ms[i].1)
    } else {
        find_from(ms, key, i + 1)
    }
}

/// The first value bound to `key` in a member list, if any; later
/// duplicates are ignored.
pub open spec fn find_member(ms: Seq<(Seq<char>, JsonView)>, key: Seq<char>) -> Option<JsonView> {
    find_from(ms, key, 0)
}

/// A required string field: present and a string.
pub open spec fn read_str(ms: Seq<(Seq<char>, JsonView)>, key: Seq<char>) -> Option<Seq<char>> {
    match find_member(ms, key) {
        Some(JsonView::Str { s }) => Some(s),
        _ => None,
    }
}

/// A required 32-bit integer field: present, a number, and in range.
pub open spec fn read_i32(ms: Seq<(Seq<char>, JsonView)>, key: Seq<char>) -> Option<int> {
    match find_member(ms, key) {
        Some(JsonView::Num { neg, mag }) => {
            let v = if neg {
                -(mag as int)
            } else {
                mag as int
            };
            if i32::MIN <= v <= i32::MAX {
                Some(v)
            } else {
                None
            }
        },
        _ => None,
    }
}

/// An optional size field: absent or `null` reads as absent, a
/// non-negative number reads as itself.
pub open spec fn read_opt_u64(ms: Seq<(Seq<char>, JsonView)>, key: Seq<char>) -> Option<
    Option<u64>,
> {
    match find_member(ms, key) {
        None => Some(None),
        Some(JsonView::Null) => Some(None),
        Some(JsonView::Num { neg, mag }) => if !neg {
            Some(Some(mag))
        } else {
            None
        },
        _ => None,
    }
}

/// An optional string field: absent or `null` reads as absent.
pub open spec fn read_opt_str(ms: Seq<(Seq<char>, JsonView)>, key: Seq<char>) -> Option<
    Option<Seq<char>>,
> {
    match find_member(ms, key) {
        None => Some(None),
        Some(JsonView::Null) => Some(None),
        Some(JsonView::Str { s }) => Some(Some(s)),
        _ => None,
    }
}

/// One recorded footage file read back from its JSON object.
pub open spec fn file_of_json(j: JsonView) -> Option<FileInfoView> {
    match j {
        JsonView::Obj { members } => match (
            read_i32(members, "camera"@),
            read_str(members, "name"@),
            read_str(members, "path"@),
        ) {
            (Some(c), Some(n), Some(p)) => Some(FileInfoView { camera: c, name: n, path: p }),
            _ => None,
        },
        _ => None,
    }
}

/// A list of recorded footage files read back from JSON objects.
pub open spec fn files_of_json(items: Seq<JsonView>) -> Option<Seq<FileInfoView>>
    decreases items.len(),
{
    if items.len() == 0 {
        Some(Seq::empty())
    } else {
        match (files_of_json(items.drop_last()), file_of_json(items.last())) {
            (Some(fs), Some(f)) => Some(fs.push(f)),
            _ => None,
        }
    }
}

/// One video link read back from its JSON object.
pub open spec fn video_of_json(j: JsonView) -> Option<VideoLinkView> {
    match j {
        JsonView::Obj { members } => match (
            read_str(members, "url"@),
            read_opt_str(members, "sproutVideoId"@),
            read_str(members, "title"@),
            read_opt_str(members, "thumbnailUrl"@),
            read_opt_str(members, "uploadDate"@),
            read_opt_str(members, "sourceRenderFile"@),
        ) {
            (Some(url), Some(sv), Some(title), Some(tn), Some(up), Some(sr)) => Some(
                VideoLinkView {
                    url: url,
                    sprout_video_id: sv,
                    title: title,
                    thumbnail_url: tn,
                    upload_date: up,
                    source_render_file: sr,
                },
            ),
            _ => None,
        },
        _ => None,
    }
}

/// A list of video links read back from JSON objects.
pub open spec fn videos_of_json(items: Seq<JsonView>) -> Option<Seq<VideoLinkView>>
    decreases items.len(),
{
    if items.len() == 0 {
        Some(Seq::empty())
    } else {
        match (videos_of_json(items.drop_last()), video_of_json(items.last())) {
            (Some(vs), Some(v)) => Some(vs.push(v)),
            _ => None,
        }
    }
}

/// One Trello card read back from its JSON object.
pub open spec fn card_of_json(j: JsonView) -> Option<TrelloCardView> {
    match j {
        JsonView::Obj { members } => match (
            read_str(members, "url"@),
            read_str(members, "cardId"@),
            read_str(members, "title"@),
            read_opt_str(members, "boardName"@),
            read_opt_str(members, "lastFetched"@),
        ) {
            (Some(url), Some(id), Some(title), Some(bn), Some(lf)) => Some(
                TrelloCardView {
                    url: url,
                    card_id: id,
                    title: title,
                    board_name: bn,
                    last_fetched: lf,
                },
            ),
            _ => None,
        },
        _ => None,
    }
}

/// A list of Trello cards read back from JSON objects.
pub open spec fn cards_of_json(items: Seq<JsonView>) -> Option<Seq<TrelloCardView>>
    decreases items.len(),
{
    if items.len() == 0 {
        Some(Seq::empty())
    } else {
        match (cards_of_json(items.drop_last()), card_of_json(items.last())) {
            (Some(cs), Some(c)) => Some(cs.push(c)),
            _ => None,
        }
    }
}

/// The optional video-link list: absent or `null` reads as absent.
pub open spec fn read_videos(ms: Seq<(Seq<char>, JsonView)>) -> Option<
    Option<Seq<VideoLinkView>>,
> {
    match find_member(ms, "videoLinks"@) {
        None => Some(None),
        Some(JsonView::Null) => Some(None),
        Some(JsonView::Arr { items }) => match videos_of_json(items) {
            Some(vs) => Some(Some(vs)),
            None => None,
        },
        _ => None,
    }
}

/// The optional card list: absent or `null` reads as absent.
pub open spec fn read_cards(ms: Seq<(Seq<char>, JsonView)>) -> Option<Option<Seq<TrelloCardView>>> {
    match find_member(ms, "trelloCards"@) {
        None => Some(None),
        Some(JsonView::Null) => Some(None),
        Some(JsonView::Arr { items }) => match cards_of_json(items) {
            Some(cs) => Some(Some(cs)),
            _ => None,
        },
        _ => None,
    }
}

/// The required files list.
pub open spec fn read_files(ms: Seq<(Seq<char>, JsonView)>) -> Option<Seq<FileInfoView>> {
    match find_member(ms, "files"@) {
        Some(JsonView::Arr { items }) => files_of_json(items),
        _ => None,
    }
}

/// A whole sidecar read back from a JSON document: the document must be
/// an object, every required field must be present with the right
/// type, and unknown members are ignored.
pub open spec fn spec_breadcrumbs_of(j: JsonView) -> Option<BreadcrumbsView> {
    match j {
        JsonView::Obj { members } => match (
            read_str(members, "projectTitle"@),
            read_i32(members, "numberOfCameras"@),
            read_files(members),
            read_str(members, "parentFolder"@),
            read_str(members, "createdBy"@),
            read_str(members, "creationDateTime"@),
            read_opt_u64(members, "folderSizeBytes"@),
            read_opt_str(members, "lastModified"@),
            read_opt_str(members, "scannedBy"@),
            read_opt_str(members, "trelloCardUrl"@),
            read_videos(members),
            read_cards(members),
        ) {
            (
                Some(title),
                Some(cams),
                Some(files),
                Some(parent),
                Some(created),
                Some(creation),
                Some(size),
                Some(modified),
                Some(scanned),
                Some(legacy),
                Some(videos),
                Some(cards),
            ) => Some(
                BreadcrumbsView {
                    project_title: title,
                    number_of_cameras: cams,
                    files: files,
                    parent_folder: parent,
                    created_by: created,
                    creation_date_time: creation,
                    folder_size_bytes: size,
                    last_modified: modified,
                    scanned_by: scanned,
                    trello_card_url: legacy,
                    video_links: videos,
                    trello_cards: cards,
                },
            ),
            _ => None,
        },
        _ => None,
    }
}

/// What parsing a sidecar document text yields: the text must be one
/// well-formed JSON document holding a well-formed sidecar object.
pub open spec fn spec_parse_breadcrumbs(s: Seq<char>) -> Option<BreadcrumbsView> {
    match crate::json::sp_document(s) {
        Some(j) => spec_breadcrumbs_of(j),
        None => None,
    }
}

/// Finds the first member bound to `key`, executed.
fn find_member_exec<'a>(ms: &'a Vec<JsonMember>, key: &str) -> (r: Option<&'a JsonValue>)
    ensures
        match r {
            Some(v) => find_member(member_views(ms@), key@) == Some(json_view(*v)),
            None => find_member(member_views(ms@), key@) is None,
        },
{
    let ghost views = member_views(ms@);
    proof {
        crate::json::lemma_member_views_elts(ms@);
    }
    let mut i: usize = 0;
    while i < ms.len()
        invariant
            i <= ms@.len(),
            views == member_views(ms@),
            views.len() == ms@.len(),
            forall|t: int|
                0 <= t < ms@.len() ==> #[trigger] views[t] == (
                ms@[t].key@,
                json_view(ms@[t].value),
                ),
            find_from(views, key@, 0) == find_from(views, key@, i as int),
        decreases ms@.len() - i,
    {
        if crate::strutil::str_eq(ms[i].key.as_str(), key) {
            proof {
                assert(views[i as int].0 == key@);
                assert(find_from(views, key@, i as int) == Some(views[i as int].1));
            }
            return Some(&ms[i].value);
        }
        i += 1;
    }
    None
}

/// Reads a required string field, executed.
fn read_str_exec(ms: &Vec<JsonMember>, key: &str) -> (r: Option<String>)
    ensures
        match r {
            Some(st) => read_str(member_views(ms@), key@) == Some(st@),
            None => read_str(member_views(ms@), key@) is None,
        },
{
    match find_member_exec(ms, key) {
        Some(JsonValue::Str(st)) => Some(st.clone()),
        _ => None,
    }
}

/// Reads a required 32-bit integer field, executed.
fn read_i32_exec(ms: &Vec<JsonMember>, key: &str) -> (r: Option<i32>)
    ensures
        match r {
            Some(n) => read_i32(member_views(ms@), key@) == Some(n as int),
            None => read_i32(member_views(ms@), key@) is None,
        },
{
    match find_member_exec(ms, key) {
        Some(JsonValue::Num { neg, mag }) => {
            if *neg {
                if *mag <= 0x8000_0000 {
                    if *mag == 0x8000_0000 {
                        Some(i32::MIN)
                    } else {
                        Some(-((*mag) as i32))
                    }
                } else {
                    None
                }
            } else {
                if *mag <= 0x7FFF_FFFF {
                    Some((*mag) as i32)
                } else {
                    None
                }
            }
        },
        _ => None,
    }
}

/// Reads an optional size field, executed.
fn read_opt_u64_exec(ms: &Vec<JsonMember>, key: &str) -> (r: Option<Option<u64>>)
    ensures
        match r {
            Some(o) => read_opt_u64(member_views(ms@), key@) == Some(o),
            None => read_opt_u64(member_views(ms@), key@) is None,
        },
{
    match find_member_exec(ms, key) {
        None => Some(None),
        Some(JsonValue::Null) => Some(None),
        Some(JsonValue::Num { neg, mag }) => if !*neg {
            Some(Some(*mag))
        } else {
            None
        },
        _ => None,
    }
}

/// Reads an optional string field, executed.
fn read_opt_str_exec(ms: &Vec<JsonMember>, key: &str) -> (r: Option<Option<String>>)
    ensures
        match r {
            Some(o) => read_opt_str(member_views(ms@), key@) == Some(
                crate::media::opt_str_view(&o),
            ),
            None => read_opt_str(member_views(ms@), key@) is None,
        },
{
    match find_member_exec(ms, key) {
        None => Some(None),
        Some(JsonValue::Null) => Some(None),
        Some(JsonValue::Str(st)) => Some(Some(st.clone())),
        _ => None,
    }
}

/// Reads one recorded footage file back, executed.
fn file_from_json(j: &JsonValue) -> (r: Option<FileInfo>)
    ensures
        match r {
            Some(f) => file_of_json(json_view(*j)) == Some(f@),
            None => file_of_json(json_view(*j)) is None,
        },
{
    let ms = match j {
        JsonValue::Obj(ms) => ms,
        _ => {
            return None;
        },
    };
    let camera = match read_i32_exec(ms, "camera") {
        Some(c) => c,
        None => {
            return None;
        },
    };
    let name = match read_str_exec(ms, "name") {
        Some(n) => n,
        None => {
            return None;
        },
    };
    let path = match read_str_exec(ms, "path") {
        Some(p) => p,
        None => {
            return None;
        },
    };
    Some(FileInfo { camera, name, path })
}

/// Reads a list of recorded footage files back, executed.
fn files_from_json(items: &Vec<JsonValue>) -> (r: Option<Vec<FileInfo>>)
    ensures
        match r {
            Some(fs) => files_of_json(json_views(items@)) == Some(
                fs@.map_values(|f: FileInfo| f@),
            ),
            None => files_of_json(json_views(items@)) is None,
        },
{
    let ghost views = json_views(items@);
    proof {
        crate::json::lemma_json_views_elts(items@);
    }
    let mut out: Vec<FileInfo> = Vec::new();
    let mut i: usize = 0;
    while i < items.len()
        invariant
            i <= items@.len(),
            views == json_views(items@),
            views.len() == items@.len(),
            forall|t: int|
                0 <= t < items@.len() ==> #[trigger] views[t] == json_view(items@[t]),
            files_of_json(views.take(i as int)) == Some(out@.map_values(|f: FileInfo| f@)),
        decreases items@.len() - i,
    {
        proof {
            assert(views.take(i + 1).drop_last() =~= views.take(i as int));
            assert(views.take(i + 1).last() == views[i as int]);
        }
        let f = match file_from_json(&items[i]) {
            Some(f) => f,
            None => {
                proof {
                    lemma_files_of_json_extends(views, i as int);
                }
                return None;
            },
        };
        let ghost prev = out@;
        out.push(f);
        i += 1;
        proof {
            broadcast use Seq::lemma_push_map_commute;

            assert(out@.map_values(|x: FileInfo| x@) =~= prev.map_values(
                |x: FileInfo| x@,
            ).push(f@));
        }
    }
    proof {
        assert(views.take(views.len() as int) =~= views);
    }
    Some(out)
}

/// When one element of the list cannot be read, the whole list cannot.
proof fn lemma_files_of_json_extends(views: Seq<JsonView>, i: int)
    requires
        0 <= i < views.len(),
        file_of_json(views[i]) is None,
    ensures
        files_of_json(views) is None,
    decreases views.len(),
{
    if views.len() > 0 {
        if i == views.len() - 1 {
        } else {
            assert(views.drop_last()[i] == views[i]);
            lemma_files_of_json_extends(views.drop_last(), i);
        }
    }
}

/// Reads one video link back, executed.
fn video_from_json(j: &JsonValue) -> (r: Option<VideoLink>)
    ensures
        match r {
            Some(v) => video_of_json(json_view(*j)) == Some(v@),
            None => video_of_json(json_view(*j)) is None,
        },
{
    let ms = match j {
        JsonValue::Obj(ms) => ms,
        _ => {
            return None;
        },
    };
    let url = match read_str_exec(ms, "url") {
        Some(u) => u,
        None => {
            return None;
        },
    };
    let sprout_video_id = match read_opt_str_exec(ms, "sproutVideoId") {
        Some(o) => o,
        None => {
            return None;
        },
    };
    let title = match read_str_exec(ms, "title") {
        Some(t) => t,
        None => {
            return None;
        },
    };
    let thumbnail_url = match read_opt_str_exec(ms, "thumbnailUrl") {
        Some(o) => o,
        None => {
            return None;
        },
    };
    let upload_date = match read_opt_str_exec(ms, "uploadDate") {
        Some(o) => o,
        None => {
            return None;
        },
    };
    let source_render_file = match read_opt_str_exec(ms, "sourceRenderFile") {
        Some(o) => o,
        None => {
            return None;
        },
    };
    Some(
        VideoLink {
            url,
            sprout_video_id,
            title,
            thumbnail_url,
            upload_date,
            source_render_file,
        },
    )
}

/// When one element of the list cannot be read, the whole list cannot.
proof fn lemma_videos_of_json_extends(views: Seq<JsonView>, i: int)
    requires
        0 <= i < views.len(),
        video_of_json(views[i]) is None,
    ensures
        videos_of_json(views) is None,
    decreases views.len(),
{
    if views.len() > 0 {
        if i == views.len() - 1 {
        } else {
            assert(views.drop_last()[i] == views[i]);
            lemma_videos_of_json_extends(views.drop_last(), i);
        }
    }
}

/// Reads a list of video links back, executed.
fn videos_from_json(items: &Vec<JsonValue>) -> (r: Option<Vec<VideoLink>>)
    ensures
        match r {
            Some(vs) => videos_of_json(json_views(items@)) == Some(
                vs@.map_values(|v: VideoLink| v@),
            ),
            None => videos_of_json(json_views(items@)) is None,
        },
{
    let ghost views = json_views(items@);
    proof {
        crate::json::lemma_json_views_elts(items@);
    }
    let mut out: Vec<VideoLink> = Vec::new();
    let mut i: usize = 0;
    while i < items.len()
        invariant
            i <= items@.len(),
            views == json_views(items@),
            views.len() == items@.len(),
            forall|t: int|
                0 <= t < items@.len() ==> #[trigger] views[t] == json_view(items@[t]),
            videos_of_json(views.take(i as int)) == Some(out@.map_values(|v: VideoLink| v@)),
        decreases items@.len() - i,
    {
        proof {
            assert(views.take(i + 1).drop_last() =~= views.take(i as int));
            assert(views.take(i + 1).last() == views[i as int]);
        }
        let v = match video_from_json(&items[i]) {
            Some(v) => v,
            None => {
                proof {
                    lemma_videos_of_json_extends(views, i as int);
                }
                return None;
            },
        };
        let ghost prev = out@;
        out.push(v);
        i += 1;
        proof {
            broadcast use Seq::lemma_push_map_commute;

            assert(out@.map_values(|x: VideoLink| x@) =~= prev.map_values(
                |x: VideoLink| x@,
            ).push(v@));
        }
    }
    proof {
        assert(views.take(views.len() as int) =~= views);
    }
    Some(out)
}

/// Reads one Trello card back, executed.
fn card_from_json(j: &JsonValue) -> (r: Option<TrelloCard>)
    ensures
        match r {
            Some(c) => card_of_json(json_view(*j)) == Some(c@),
            None => card_of_json(json_view(*j)) is None,
        },
{
    let ms = match j {
        JsonValue::Obj(ms) => ms,
        _ => {
            return None;
        },
    };
    let url = match read_str_exec(ms, "url") {
        Some(u) => u,
        None => {
            return None;
        },
    };
    let card_id = match read_str_exec(ms, "cardId") {
        Some(c) => c,
        None => {
            return None;
        },
    };
    let title = match read_str_exec(ms, "title") {
        Some(t) => t,
        None => {
            return None;
        },
    };
    let board_name = match read_opt_str_exec(ms, "boardName") {
        Some(o) => o,
        None => {
            return None;
        },
    };
    let last_fetched = match read_opt_str_exec(ms, "lastFetched") {
        Some(o) => o,
        None => {
            return None;
        },
    };
    Some(TrelloCard { url, card_id, title, board_name, last_fetched })
}

/// When one element of the list cannot be read, the whole list cannot.
proof fn lemma_cards_of_json_extends(views: Seq<JsonView>, i: int)
    requires
        0 <= i < views.len(),
        card_of_json(views[i]) is None,
    ensures
        cards_of_json(views) is None,
    decreases views.len(),
{
    if views.len() > 0 {
        if i == views.len() - 1 {
        } else {
            assert(views.drop_last()[i] == views[i]);
            lemma_cards_of_json_extends(views.drop_last(), i);
        }
    }
}

/// Reads a list of Trello cards back, executed.
fn cards_from_json(items: &Vec<JsonValue>) -> (r: Option<Vec<TrelloCard>>)
    ensures
        match r {
            Some(cs) => cards_of_json(json_views(items@)) == Some(
                cs@.map_values(|c: TrelloCard| c@),
            ),
            None => cards_of_json(json_views(items@)) is None,
        },
{
    let ghost views = json_views(items@);
    proof {
        crate::json::lemma_json_views_elts(items@);
    }
    let mut out: Vec<TrelloCard> = Vec::new();
    let mut i: usize = 0;
    while i < items.len()
        invariant
            i <= items@.len(),
            views == json_views(items@),
            views.len() == items@.len(),
            forall|t: int|
                0 <= t < items@.len() ==> #[trigger] views[t] == json_view(items@[t]),
            cards_of_json(views.take(i as int)) == Some(out@.map_values(|c: TrelloCard| c@)),
        decreases items@.len() - i,
    {
        proof {
            assert(views.take(i + 1).drop_last() =~= views.take(i as int));
            assert(views.take(i + 1).last() == views[i as int]);
        }
        let c = match card_from_json(&items[i]) {
            Some(c) => c,
            None => {
                proof {
                    lemma_cards_of_json_extends(views, i as int);
                }
                return None;
            },
        };
        let ghost prev = out@;
        out.push(c);
        i += 1;
        proof {
            broadcast use Seq::lemma_push_map_commute;

            assert(out@.map_values(|x: TrelloCard| x@) =~= prev.map_values(
                |x: TrelloCard| x@,
            ).push(c@));
        }
    }
    proof {
        assert(views.take(views.len() as int) =~= views);
    }
    Some(out)
}

/// Reads a whole sidecar back from a JSON document, executed.
pub fn json_to_breadcrumbs(j: &JsonValue) -> (r: Option<BreadcrumbsFile>)
    ensures
        match r {
            Some(b) => spec_breadcrumbs_of(json_view(*j)) == Some(b@),
            None => spec_breadcrumbs_of(json_view(*j)) is None,
        },
{
    let ms = match j {
        JsonValue::Obj(ms) => ms,
        _ => {
            return None;
        },
    };
    let project_title = match read_str_exec(ms, "projectTitle") {
        Some(v) => v,
        None => {
            return None;
        },
    };
    let number_of_cameras = match read_i32_exec(ms, "numberOfCameras") {
        Some(v) => v,
        None => {
            return None;
        },
    };
    let files = match find_member_exec(ms, "files") {
        Some(JsonValue::Arr(items)) => match files_from_json(items) {
            Some(fs) => fs,
            None => {
                return None;
            },
        },
        _ => {
            return None;
        },
    };
    let parent_folder = match read_str_exec(ms, "parentFolder") {
        Some(v) => v,
        None => {
            return None;
        },
    };
    let created_by = match read_str_exec(ms, "createdBy") {
        Some(v) => v,
        None => {
            return None;
        },
    };
    let creation_date_time = match read_str_exec(ms, "creationDateTime") {
        Some(v) => v,
        None => {
            return None;
        },
    };
    let folder_size_bytes = match read_opt_u64_exec(ms, "folderSizeBytes") {
        Some(v) => v,
        None => {
            return None;
        },
    };
    let last_modified = match read_opt_str_exec(ms, "lastModified") {
        Some(v) => v,
        None => {
            return None;
        },
    };
    let scanned_by = match read_opt_str_exec(ms, "scannedBy") {
        Some(v) => v,
        None => {
            return None;
        },
    };
    let trello_card_url = match read_opt_str_exec(ms, "trelloCardUrl") {
        Some(v) => v,
        None => {
            return None;
        },
    };
    let video_links = match find_member_exec(ms, "videoLinks") {
        None => None,
        Some(JsonValue::Null) => None,
        Some(JsonValue::Arr(items)) => match videos_from_json(items) {
            Some(vs) => Some(vs),
            None => {
                return None;
            },
        },
        _ => {
            return None;
        },
    };
    let trello_cards = match find_member_exec(ms, "trelloCards") {
        None => None,
        Some(JsonValue::Null) => None,
        Some(JsonValue::Arr(items)) => match cards_from_json(items) {
            Some(cs) => Some(cs),
            None => {
                return None;
            },
        },
        _ => {
            return None;
        },
    };
    Some(
        BreadcrumbsFile {
            project_title,
            number_of_cameras,
            files,
            parent_folder,
            created_by,
            creation_date_time,
            folder_size_bytes,
            last_modified,
            scanned_by,
            trello_card_url,
            video_links,
            trello_cards,
        },
    )
}

/// Parses a sidecar document text; `None` when the text is not a
/// well-formed sidecar document.
pub fn parse_breadcrumbs(s: &str) -> (r: Option<BreadcrumbsFile>)
    ensures
        match r {
            Some(b) => spec_parse_breadcrumbs(s@) == Some(b@),
            None => spec_parse_breadcrumbs(s@) is None,
        },
{
    match crate::json::parse_document(s) {
        Some(j) => json_to_breadcrumbs(&j),
        None => None,
    }
}

/// A well-formed abstract sidecar: its camera counts fit 32 bits, as
/// every sidecar held in memory does.
pub open spec fn breadcrumbs_wf(b: BreadcrumbsView) -> bool {
    &&& i32::MIN <= b.number_of_cameras <= i32::MAX
    &&& forall|i: int|
        0 <= i < b.files.len() ==> i32::MIN <= (#[trigger] b.files[i]).camera <= i32::MAX
}

/// The abstract value of a sidecar held in memory is well formed.
pub proof fn lemma_view_wf(b: BreadcrumbsFile)
    ensures
        breadcrumbs_wf(b@),
{
    assert forall|i: int| 0 <= i < b@.files.len() implies i32::MIN <= (
    #[trigger] b@.files[i]).camera <= i32::MAX by {
        assert(b@.files[i] == b.files@[i]@);
    }
}

/// Reading one written footage file yields it back.
proof fn lemma_file_round_trip(f: FileInfoView)
    requires
        i32::MIN <= f.camera <= i32::MAX,
    ensures
        file_of_json(file_json(f)) == Some(f),
{
    reveal_with_fuel(find_from, 5);
    reveal_strlit("camera");
    reveal_strlit("name");
    reveal_strlit("path");
    let ms = file_json(f)->Obj_members;
    assert("camera"@.len() == 6 && "name"@.len() == 4 && "path"@.len() == 4);
    assert("name"@[0] == 'n' && "path"@[0] == 'p');
    assert(find_member(ms, "camera"@) == Some(num_of_i32(f.camera)));
    assert(find_member(ms, "name"@) == Some(JsonView::Str { s: f.name }));
    assert(find_member(ms, "path"@) == Some(JsonView::Str { s: f.path }));
    assert(read_i32(ms, "camera"@) == Some(f.camera));
}

/// Reading a written footage list yields it back.
proof fn lemma_files_round_trip(fs: Seq<FileInfoView>)
    requires
        forall|i: int| 0 <= i < fs.len() ==> i32::MIN <= (#[trigger] fs[i]).camera <= i32::MAX,
    ensures
        files_of_json(files_json(fs)) == Some(fs),
    decreases fs.len(),
{
    if fs.len() == 0 {
        assert(files_json(fs).len() == 0);
        assert(files_of_json(files_json(fs)) == Some(Seq::<FileInfoView>::empty()));
        assert(fs =~= Seq::<FileInfoView>::empty());
    } else {
        assert(files_json(fs).drop_last() =~= files_json(fs.drop_last()));
        assert(files_json(fs).last() == file_json(fs.last()));
        lemma_files_round_trip(fs.drop_last());
        lemma_file_round_trip(fs.last());
        assert(fs.drop_last().push(fs.last()) =~= fs);
    }
}

/// Reading one written video link yields it back.
proof fn lemma_video_round_trip(v: VideoLinkView)
    ensures
        video_of_json(video_json(v)) == Some(v),
{
    reveal_with_fuel(find_from, 8);
    reveal_strlit("url");
    reveal_strlit("sproutVideoId");
    reveal_strlit("title");
    reveal_strlit("thumbnailUrl");
    reveal_strlit("uploadDate");
    reveal_strlit("sourceRenderFile");
    let ms = video_json(v)->Obj_members;
    assert("url"@.len() == 3 && "sproutVideoId"@.len() == 13 && "title"@.len() == 5
        && "thumbnailUrl"@.len() == 12 && "uploadDate"@.len() == 10
        && "sourceRenderFile"@.len() == 16);
    assert(find_member(ms, "url"@) == Some(JsonView::Str { s: v.url }));
    assert(find_member(ms, "sproutVideoId"@) == match v.sprout_video_id {
        Some(s) => Some(JsonView::Str { s }),
        None => None,
    });
    assert(find_member(ms, "title"@) == Some(JsonView::Str { s: v.title }));
    assert(find_member(ms, "thumbnailUrl"@) == match v.thumbnail_url {
        Some(s) => Some(JsonView::Str { s }),
        None => None,
    });
    assert(find_member(ms, "uploadDate"@) == match v.upload_date {
        Some(s) => Some(JsonView::Str { s }),
        None => None,
    });
    assert(find_member(ms, "sourceRenderFile"@) == match v.source_render_file {
        Some(s) => Some(JsonView::Str { s }),
        None => None,
    });
}

/// Reading a written video-link list yields it back.
proof fn lemma_videos_round_trip(vs: Seq<VideoLinkView>)
    ensures
        videos_of_json(videos_json(vs)) == Some(vs),
    decreases vs.len(),
{
    if vs.len() == 0 {
        assert(videos_json(vs).len() == 0);
        assert(vs =~= Seq::<VideoLinkView>::empty());
    } else {
        assert(videos_json(vs).drop_last() =~= videos_json(vs.drop_last()));
        assert(videos_json(vs).last() == video_json(vs.last()));
        lemma_videos_round_trip(vs.drop_last());
        lemma_video_round_trip(vs.last());
        assert(vs.drop_last().push(vs.last()) =~= vs);
    }
}

/// Reading one written Trello card yields it back.
proof fn lemma_card_round_trip(c: TrelloCardView)
    ensures
        card_of_json(card_json(c)) == Some(c),
{
    reveal_with_fuel(find_from, 7);
    reveal_strlit("url");
    reveal_strlit("cardId");
    reveal_strlit("title");
    reveal_strlit("boardName");
    reveal_strlit("lastFetched");
    let ms = card_json(c)->Obj_members;
    assert("url"@.len() == 3 && "cardId"@.len() == 6 && "title"@.len() == 5
        && "boardName"@.len() == 9 && "lastFetched"@.len() == 11);
    assert(find_member(ms, "url"@) == Some(JsonView::Str { s: c.url }));
    assert(find_member(ms, "cardId"@) == Some(JsonView::Str { s: c.card_id }));
    assert(find_member(ms, "title"@) == Some(JsonView::Str { s: c.title }));
    assert(find_member(ms, "boardName"@) == match c.board_name {
        Some(s) => Some(JsonView::Str { s }),
        None => None,
    });
    assert(find_member(ms, "lastFetched"@) == match c.last_fetched {
        Some(s) => Some(JsonView::Str { s }),
        None => None,
    });
}

/// Reading a written card list yields it back.
proof fn lemma_cards_round_trip(cs: Seq<TrelloCardView>)
    ensures
        cards_of_json(cards_json(cs)) == Some(cs),
    decreases cs.len(),
{
    if cs.len() == 0 {
        assert(cards_json(cs).len() == 0);
        assert(cs =~= Seq::<TrelloCardView>::empty());
    } else {
        assert(cards_json(cs).drop_last() =~= cards_json(cs.drop_last()));
        assert(cards_json(cs).last() == card_json(cs.last()));
        lemma_cards_round_trip(cs.drop_last());
        lemma_card_round_trip(cs.last());
        assert(cs.drop_last().push(cs.last()) =~= cs);
    }
}

/// Round trip: reading back a written sidecar document yields the
/// sidecar field for field.  Writing itself changes no field, so what
/// is read back is exactly what was written.
pub proof fn lemma_breadcrumbs_round_trip(b: BreadcrumbsView)
    requires
        breadcrumbs_wf(b),
    ensures
        spec_breadcrumbs_of(spec_json_of(b)) == Some(b),
{
    reveal_with_fuel(find_from, 14);
    reveal_strlit("projectTitle");
    reveal_strlit("numberOfCameras");
    reveal_strlit("files");
    reveal_strlit("parentFolder");
    reveal_strlit("createdBy");
    reveal_strlit("creationDateTime");
    reveal_strlit("folderSizeBytes");
    reveal_strlit("lastModified");
    reveal_strlit("scannedBy");
    reveal_strlit("trelloCardUrl");
    reveal_strlit("videoLinks");
    reveal_strlit("trelloCards");
    let ms = spec_json_of(b)->Obj_members;
    assert("projectTitle"@.len() == 12 && "numberOfCameras"@.len() == 15 && "files"@.len() == 5
        && "parentFolder"@.len() == 12 && "createdBy"@.len() == 9
        && "creationDateTime"@.len() == 16 && "folderSizeBytes"@.len() == 15
        && "lastModified"@.len() == 12 && "scannedBy"@.len() == 9
        && "trelloCardUrl"@.len() == 13 && "videoLinks"@.len() == 10
        && "trelloCards"@.len() == 11);
    assert("projectTitle"@[1] == 'r' && "parentFolder"@[1] == 'a' && "lastModified"@[0] == 'l'
        && "projectTitle"@[0] == 'p' && "parentFolder"@[0] == 'p');
    assert("numberOfCameras"@[0] == 'n' && "folderSizeBytes"@[0] == 'f');
    assert("createdBy"@[0] == 'c' && "scannedBy"@[0] == 's');
    lemma_files_round_trip(b.files);
    assert(find_member(ms, "projectTitle"@) == Some(JsonView::Str { s: b.project_title }));
    assert(find_member(ms, "numberOfCameras"@) == Some(num_of_i32(b.number_of_cameras)));
    assert(read_i32(ms, "numberOfCameras"@) == Some(b.number_of_cameras));
    assert(find_member(ms, "files"@) == Some(JsonView::Arr { items: files_json(b.files) }));
    assert(find_member(ms, "parentFolder"@) == Some(JsonView::Str { s: b.parent_folder }));
    assert(find_member(ms, "createdBy"@) == Some(JsonView::Str { s: b.created_by }));
    assert(find_member(ms, "creationDateTime"@) == Some(
        JsonView::Str { s: b.creation_date_time },
    ));
    assert(find_member(ms, "folderSizeBytes"@) == Some(json_of_opt_u64(b.folder_size_bytes)));
    assert(find_member(ms, "lastModified"@) == Some(json_of_opt_str(b.last_modified)));
    assert(find_member(ms, "scannedBy"@) == Some(json_of_opt_str(b.scanned_by)));
    assert(find_member(ms, "trelloCardUrl"@) == Some(json_of_opt_str(b.trello_card_url)));
    match b.video_links {
        Some(vs) => {
            lemma_videos_round_trip(vs);
            assert(find_member(ms, "videoLinks"@) == Some(
                JsonView::Arr { items: videos_json(vs) },
            ));
        },
        None => {
            assert(find_member(ms, "videoLinks"@) is None);
        },
    }
    match b.trello_cards {
        Some(cs) => {
            lemma_cards_round_trip(cs);
            assert(find_member(ms, "trelloCards"@) == Some(
                JsonView::Arr { items: cards_json(cs) },
            ));
        },
        None => {
            assert(find_member(ms, "trelloCards"@) is None);
        },
    }
    assert(spec_breadcrumbs_of(spec_json_of(b)) == Some(b));
}

/// Two member lists of canonical values concatenate to one.
proof fn lemma_members_canonical_concat(
    a: Seq<(Seq<char>, JsonView)>,
    b: Seq<(Seq<char>, JsonView)>,
)
    requires
        forall|m: int| 0 <= m < a.len() ==> crate::json::canonical((#[trigger] a[m]).1),
        forall|m: int| 0 <= m < b.len() ==> crate::json::canonical((#[trigger] b[m]).1),
    ensures
        forall|m: int| 0 <= m < (a + b).len() ==> crate::json::canonical((#[trigger] (a + b)[m]).1),
{
    assert forall|m: int|
        0 <= m < (a + b).len() implies crate::json::canonical((#[trigger] (a + b)[m]).1) by {
        if m < a.len() {
            assert((a + b)[m] == a[m]);
        } else {
            assert((a + b)[m] == b[m - a.len()]);
        }
    }
}

/// A 32-bit integer's JSON number is canonical.
proof fn lemma_canonical_num_of_i32(n: int)
    requires
        i32::MIN <= n <= i32::MAX,
    ensures
        crate::json::canonical(num_of_i32(n)),
{
}

/// A written footage file is canonical.
proof fn lemma_canonical_file_json(f: FileInfoView)
    requires
        i32::MIN <= f.camera <= i32::MAX,
    ensures
        crate::json::canonical(file_json(f)),
{
    let ms = file_json(f)->Obj_members;
    assert forall|m: int| 0 <= m < ms.len() implies crate::json::canonical(
        (#[trigger] ms[m]).1,
    ) by {
        lemma_canonical_num_of_i32(f.camera);
        if m == 0 {
            assert(ms[0].1 == num_of_i32(f.camera));
        }
    }
}

/// An optional string member list holds only canonical values.
proof fn lemma_canonical_opt_member(key: Seq<char>, o: Option<Seq<char>>)
    ensures
        forall|m: int|
            0 <= m < opt_member(key, o).len() ==> crate::json::canonical(
                (#[trigger] opt_member(key, o)[m]).1,
            ),
{
}

/// A written video link is canonical.
proof fn lemma_canonical_video_json(v: VideoLinkView)
    ensures
        crate::json::canonical(video_json(v)),
{
    let s1 = seq![("url"@, JsonView::Str { s: v.url })];
    let s2 = opt_member("sproutVideoId"@, v.sprout_video_id);
    let s3 = seq![("title"@, JsonView::Str { s: v.title })];
    let s4 = opt_member("thumbnailUrl"@, v.thumbnail_url);
    let s5 = opt_member("uploadDate"@, v.upload_date);
    let s6 = opt_member("sourceRenderFile"@, v.source_render_file);
    lemma_canonical_opt_member("sproutVideoId"@, v.sprout_video_id);
    lemma_canonical_opt_member("thumbnailUrl"@, v.thumbnail_url);
    lemma_canonical_opt_member("uploadDate"@, v.upload_date);
    lemma_canonical_opt_member("sourceRenderFile"@, v.source_render_file);
    lemma_members_canonical_concat(s1, s2);
    lemma_members_canonical_concat(s1 + s2, s3);
    lemma_members_canonical_concat(s1 + s2 + s3, s4);
    lemma_members_canonical_concat(s1 + s2 + s3 + s4, s5);
    lemma_members_canonical_concat(s1 + s2 + s3 + s4 + s5, s6);
    assert(video_json(v)->Obj_members == s1 + s2 + s3 + s4 + s5 + s6);
}

/// A written Trello card is canonical.
proof fn lemma_canonical_card_json(c: TrelloCardView)
    ensures
        crate::json::canonical(card_json(c)),
{
    let s1 = seq![
        ("url"@, JsonView::Str { s: c.url }),
        ("cardId"@, JsonView::Str { s: c.card_id }),
        ("title"@, JsonView::Str { s: c.title }),
    ];
    let s2 = opt_member("boardName"@, c.board_name);
    let s3 = opt_member("lastFetched"@, c.last_fetched);
    lemma_canonical_opt_member("boardName"@, c.board_name);
    lemma_canonical_opt_member("lastFetched"@, c.last_fetched);
    lemma_members_canonical_concat(s1, s2);
    lemma_members_canonical_concat(s1 + s2, s3);
    assert(card_json(c)->Obj_members == s1 + s2 + s3);
}

/// The written sidecar document is canonical: every number in it is
/// canonically signed.
proof fn lemma_spec_json_of_canonical(b: BreadcrumbsView)
    requires
        breadcrumbs_wf(b),
    ensures
        crate::json::canonical(spec_json_of(b)),
{
    let base = base_members(b);
    assert forall|m: int| 0 <= m < base.len() implies crate::json::canonical(
        (#[trigger] base[m]).1,
    ) by {
        lemma_canonical_num_of_i32(b.number_of_cameras);
        if m == 1 {
            assert(base[1].1 == num_of_i32(b.number_of_cameras));
        } else if m == 2 {
            assert(base[2].1 == (JsonView::Arr { items: files_json(b.files) }));
            assert forall|k: int|
                0 <= k < files_json(b.files).len() implies crate::json::canonical(
                #[trigger] files_json(b.files)[k],
            ) by {
                lemma_canonical_file_json(b.files[k]);
            }
        } else if m == 6 {
            assert(base[6].1 == json_of_opt_u64(b.folder_size_bytes));
        }
    }
    let vids = videos_member(b);
    assert forall|m: int| 0 <= m < vids.len() implies crate::json::canonical(
        (#[trigger] vids[m]).1,
    ) by {
        match b.video_links {
            Some(vs) => {
                assert(vids[0].1 == (JsonView::Arr { items: videos_json(vs) }));
                assert forall|k: int|
                    0 <= k < videos_json(vs).len() implies crate::json::canonical(
                    #[trigger] videos_json(vs)[k],
                ) by {
                    lemma_canonical_video_json(vs[k]);
                }
            },
            None => {},
        }
    }
    let cards = cards_member(b);
    assert forall|m: int| 0 <= m < cards.len() implies crate::json::canonical(
        (#[trigger] cards[m]).1,
    ) by {
        match b.trello_cards {
            Some(cs) => {
                assert(cards[0].1 == (JsonView::Arr { items: cards_json(cs) }));
                assert forall|k: int|
                    0 <= k < cards_json(cs).len() implies crate::json::canonical(
                    #[trigger] cards_json(cs)[k],
                ) by {
                    lemma_canonical_card_json(cs[k]);
                }
            },
            None => {},
        }
    }
    lemma_members_canonical_concat(base, vids);
    lemma_members_canonical_concat(base + vids, cards);
    assert(spec_json_of(b)->Obj_members == base + vids + cards);
}

/// Round trip through the document text itself: writing a sidecar as
/// its pretty-printed JSON text — exactly what [`serialize_breadcrumbs`]
/// produces — and parsing that text back yields the sidecar, field for
/// field.  Writing changes no field, so nothing is excepted.  The same
/// holds for the compact form.
pub proof fn lemma_sidecar_text_round_trip(b: BreadcrumbsView)
    requires
        breadcrumbs_wf(b),
    ensures
        spec_parse_breadcrumbs(crate::json::ser_pretty_value(spec_json_of(b), 0)) == Some(b),
        spec_parse_breadcrumbs(crate::json::ser_value(spec_json_of(b))) == Some(b),
{
    lemma_spec_json_of_canonical(b);
    crate::json::lemma_pretty_document_round_trip(spec_json_of(b));
    crate::json::lemma_document_round_trip(spec_json_of(b));
    lemma_breadcrumbs_round_trip(b);
}

} // verus!
