//! The catalog's data model as the core reads and writes it: media
//! entries, the conversion from a stored row, tag filtering, pagination,
//! and kind classification.

use vstd::prelude::*;
use crate::generator::{spec_media_kind, spec_mime_view, media_kind, MediaKind};
use crate::text::str_eq;

verus! {

/// One catalog entry: a file or directory under the media root.
pub struct MediaEntry {
    pub id: i64,
    pub name: String,
    pub path: String,
    pub parent_id: Option<i64>,
    pub mime_type: Option<String>,
    pub size: Option<i64>,
    pub created_at: String,
    pub tags: Option<Vec<String>>,
    pub thumb_path: Option<String>,
    pub width: Option<i64>,
    pub height: Option<i64>,
    pub duration_secs: Option<i64>,
}

/// The fields written when creating or updating an entry, keyed by path.
pub struct NewMediaEntry {
    pub name: String,
    pub path: String,
    pub parent_id: Option<i64>,
    pub mime_type: Option<String>,
    pub size: Option<i64>,
    pub tags: Option<Vec<String>>,
    pub thumb_path: Option<String>,
    pub width: Option<i64>,
    pub height: Option<i64>,
    pub duration_secs: Option<i64>,
}

/// The mathematical content of a catalog entry.
#[verifier::ext_equal]
pub struct EntryModel {
    pub id: int,
    pub name: Seq<char>,
    pub path: Seq<char>,
    pub parent_id: Option<int>,
    pub mime_type: Option<Seq<char>>,
    pub size: Option<int>,
    pub created_at: Seq<char>,
    pub tags: Option<Seq<Seq<char>>>,
    pub thumb_path: Option<Seq<char>>,
    pub width: Option<int>,
    pub height: Option<int>,
    pub duration_secs: Option<int>,
}

/// An optional machine integer as an optional mathematical one.
pub open spec fn opt_int(o: Option<i64>) -> Option<int> {
    match o {
        None => None,
        Some(v) => Some(v as int),
    }
}

impl DeepView for MediaEntry {
    type V = EntryModel;

    open spec fn deep_view(&self) -> EntryModel {
        EntryModel {
            id: self.id as int,
            name: self.name@,
            path: self.path@,
            parent_id: opt_int(self.parent_id),
            mime_type: self.mime_type.deep_view(),
            size: opt_int(self.size),
            created_at: self.created_at@,
            tags: self.tags.deep_view(),
            thumb_path: self.thumb_path.deep_view(),
            width: opt_int(self.width),
            height: opt_int(self.height),
            duration_secs: opt_int(self.duration_secs),
        }
    }
}

/// Copies an optional string.
pub fn clone_opt_string(o: &Option<String>) -> (r: Option<String>)
    ensures
        r.deep_view() == o.deep_view(),
{
    match o {
        Some(s) => Some(s.clone()),
        None => None,
    }
}

/// Copies a string list element by element.
pub fn clone_string_vec(v: &Vec<String>) -> (r: Vec<String>)
    ensures
        r.deep_view() == v.deep_view(),
{
    let mut r: Vec<String> = Vec::new();
    let mut i: usize = 0;
    while i < v.len()
        invariant
            i <= v@.len(),
            r.deep_view() == v.deep_view().take(i as int),
        decreases v@.len() - i,
    {
        let ghost before = r.deep_view();
        r.push(v[i].clone());
        proof {
            assert(r.deep_view() =~= before.push(v@[i as int]@));
            assert(v.deep_view().take(i + 1) =~= v.deep_view().take(i as int).push(
                v@[i as int]@,
            ));
        }
        i = i + 1;
    }
    proof {
        assert(v.deep_view().take(v@.len() as int) =~= v.deep_view());
    }
    r
}

/// Copies an optional tag list.
pub fn clone_opt_tags(o: &Option<Vec<String>>) -> (r: Option<Vec<String>>)
    ensures
        r.deep_view() == o.deep_view(),
{
    match o {
        Some(t) => Some(clone_string_vec(t)),
        None => None,
    }
}

/// Copies a whole catalog entry.
pub fn clone_entry(e: &MediaEntry) -> (r: MediaEntry)
    ensures
        r.deep_view() == e.deep_view(),
{
    let r = MediaEntry {
        id: e.id,
        name: e.name.clone(),
        path: e.path.clone(),
        parent_id: e.parent_id,
        mime_type: clone_opt_string(&e.mime_type),
        size: e.size,
        created_at: e.created_at.clone(),
        tags: clone_opt_tags(&e.tags),
        thumb_path: clone_opt_string(&e.thumb_path),
        width: e.width,
        height: e.height,
        duration_secs: e.duration_secs,
    };
    proof {
        assert(r.deep_view() =~= e.deep_view());
    }
    r
}

/// The JSON array text that a list of tag strings serializes to.
pub uninterp spec fn spec_tags_json(tags: Seq<Seq<char>>) -> Seq<char>;

/// Relies on serde_json::to_string: the JSON text of a string list is a
/// function of the list alone, and serializing a `Vec<String>` cannot
/// fail (only unserializable types and non-string map keys can).
#[verifier::external_body]
fn tags_to_json(tags: &Vec<String>) -> (r: Option<String>)
    ensures
        r is Some,
        r->0@ == spec_tags_json(tags.deep_view()),
{
    serde_json::to_string(tags).ok()
}

/// What a JSON text parses to as a list of tag strings, if it does.
pub uninterp spec fn spec_tags_of_json(s: Seq<char>) -> Option<Seq<Seq<char>>>;

/// Relies on serde_json::from_str::<Vec<String>>: what a text parses to
/// is a function of the text alone.
#[verifier::external_body]
fn tags_from_json(s: &str) -> (r: Option<Vec<String>>)
    ensures
        r.deep_view() == spec_tags_of_json(s@),
{
    serde_json::from_str::<Vec<String>>(s).ok()
}

/// Serializes an entry's optional tag list to the text stored in the
/// catalog's tags column.
pub fn encode_tags(tags: &Option<Vec<String>>) -> (r: Option<String>)
    ensures
        match tags {
            None => r is None,
            Some(t) => r is Some && r->0@ == spec_tags_json(t.deep_view()),
        },
{
    match tags {
        None => None,
        Some(t) => tags_to_json(t),
    }
}

/// Parses the stored tags column back into a tag list; a missing or
/// unparsable column means no tags.
pub fn decode_tags(tags_json: &Option<String>) -> (r: Option<Vec<String>>)
    ensures
        r.deep_view() == match tags_json {
            None => None::<Seq<Seq<char>>>,
            Some(s) => spec_tags_of_json(s@),
        },
{
    match tags_json {
        None => None,
        Some(s) => tags_from_json(s.as_str()),
    }
}

/// Assembles a catalog entry from the columns of a stored row, in the
/// order the catalog returns them. The tags column holds JSON text and is
/// decoded; everything else is carried over as is.
pub fn entry_from_row(
    id: i64,
    name: String,
    path: String,
    parent_id: Option<i64>,
    mime_type: Option<String>,
    size: Option<i64>,
    tags_json: Option<String>,
    thumb_path: Option<String>,
    width: Option<i64>,
    height: Option<i64>,
    duration_secs: Option<i64>,
    created_at: String,
) -> (r: MediaEntry)
    ensures
        r.id == id,
        r.name@ == name@,
        r.path@ == path@,
        r.parent_id == parent_id,
        r.mime_type.deep_view() == mime_type.deep_view(),
        r.size == size,
        r.created_at@ == created_at@,
        r.tags.deep_view() == match tags_json {
            None => None::<Seq<Seq<char>>>,
            Some(s) => spec_tags_of_json(s@),
        },
        r.thumb_path.deep_view() == thumb_path.deep_view(),
        r.width == width,
        r.height == height,
        r.duration_secs == duration_secs,
{
    let tags = decode_tags(&tags_json);
    MediaEntry {
        id,
        name,
        path,
        parent_id,
        mime_type,
        size,
        created_at,
        tags,
        thumb_path,
        width,
        height,
        duration_secs,
    }
}

/// An entry carries all the asked-for tags: it has a tag list, and every
/// tag of the filter occurs in it. An entry without tags matches no
/// filter.
pub open spec fn spec_has_all_tags(tags: Option<Seq<Seq<char>>>, filter: Seq<Seq<char>>) -> bool {
    match tags {
        None => false,
        Some(t) => forall|i: int| 0 <= i < filter.len() ==> t.contains(#[trigger] filter[i]),
    }
}

/// Whether an entry's tag list carries every tag of the filter.
pub fn entry_has_all_tags(tags: &Option<Vec<String>>, filter: &Vec<String>) -> (r: bool)
    ensures
        r == spec_has_all_tags(tags.deep_view(), filter.deep_view()),
{
    let t = match tags {
        None => {
            return false;
        },
        Some(t) => t,
    };
    proof {
        assert(tags.deep_view() == Some(t.deep_view()));
    }
    let mut i: usize = 0;
    while i < filter.len()
        invariant
            i <= filter@.len(),
            filter.deep_view().len() == filter@.len(),
            tags.deep_view() == Some(t.deep_view()),
            forall|k: int|
                0 <= k < i ==> t.deep_view().contains(#[trigger] filter.deep_view()[k]),
        decreases filter@.len() - i,
    {
        let want = &filter[i];
        proof {
            assert(filter.deep_view()[i as int] == filter@[i as int]@);
        }
        let mut j: usize = 0;
        let mut found = false;
        while j < t.len() && !found
            invariant
                j <= t@.len(),
                i < filter@.len(),
                filter.deep_view().len() == filter@.len(),
                filter.deep_view()[i as int] == filter@[i as int]@,
                want == &filter@[i as int],
                t.deep_view().len() == t@.len(),
                found ==> t.deep_view().contains(filter.deep_view()[i as int]),
                !found ==> forall|m: int|
                    0 <= m < j ==> #[trigger] t.deep_view()[m] != filter.deep_view()[i as int],
            decreases
                    t@.len() - j + if found {
                        0int
                    } else {
                        1int
                    },
        {
            proof {
                assert(t.deep_view()[j as int] == t@[j as int]@);
            }
            if t[j].eq(want) {
                found = true;
                proof {
                    assert(t.deep_view()[j as int] == filter.deep_view()[i as int]);
                }
            } else {
                j = j + 1;
            }
        }
        if !found {
            proof {
                assert(forall|m: int|
                    0 <= m < t.deep_view().len() ==> #[trigger] t.deep_view()[m]
                        != filter.deep_view()[i as int]);
                assert(!t.deep_view().contains(filter.deep_view()[i as int]));
                assert(tags.deep_view() == Some(t.deep_view()));
                assert(!spec_has_all_tags(tags.deep_view(), filter.deep_view()));
            }
            return false;
        }
        i = i + 1;
    }
    true
}

/// The entries that carry all the asked-for tags, in their given order.
pub open spec fn spec_filter_by_tags(s: Seq<EntryModel>, filter: Seq<Seq<char>>) -> Seq<EntryModel>
    decreases s.len(),
{
    if s.len() == 0 {
        s
    } else {
        let rest = spec_filter_by_tags(s.drop_last(), filter);
        if spec_has_all_tags(s.last().tags, filter) {
            rest.push(s.last())
        } else {
            rest
        }
    }
}

/// Keeps the entries that carry every tag of the filter.
pub fn filter_entries_by_tags(entries: &Vec<MediaEntry>, filter: &Vec<String>) -> (r: Vec<
    MediaEntry,
>)
    ensures
        r.deep_view() == spec_filter_by_tags(entries.deep_view(), filter.deep_view()),
{
    let mut r: Vec<MediaEntry> = Vec::new();
    let mut i: usize = 0;
    proof {
        assert(entries.deep_view().take(0) =~= Seq::<EntryModel>::empty());
        assert(r.deep_view() =~= spec_filter_by_tags(
            entries.deep_view().take(0),
            filter.deep_view(),
        ));
    }
    while i < entries.len()
        invariant
            i <= entries@.len(),
            entries.deep_view().len() == entries@.len(),
            r.deep_view() == spec_filter_by_tags(
                entries.deep_view().take(i as int),
                filter.deep_view(),
            ),
        decreases entries@.len() - i,
    {
        let e = &entries[i];
        let ghost before = r.deep_view();
        proof {
            assert(entries.deep_view().take(i + 1).drop_last() =~= entries.deep_view().take(
                i as int,
            ));
            assert(entries.deep_view().take(i + 1).last() == entries.deep_view()[i as int]);
            assert(entries.deep_view()[i as int] == entries@[i as int].deep_view());
        }
        if entry_has_all_tags(&e.tags, filter) {
            r.push(clone_entry(e));
            proof {
                assert(r.deep_view() =~= before.push(entries@[i as int].deep_view()));
            }
        }
        i = i + 1;
    }
    proof {
        assert(entries.deep_view().take(entries@.len() as int) =~= entries.deep_view());
    }
    r
}

/// The page bounds that a limit and offset select out of `len` entries:
/// a negative or missing offset starts at 0, a negative limit is empty,
/// a missing limit takes 100, and both are clamped to the list.
pub open spec fn spec_page_bounds(len: int, limit: Option<i64>, offset: Option<i64>) -> (int, int) {
    let lim = match limit {
        None => 100,
        Some(l) => if l < 0 {
            0
        } else {
            l as int
        },
    };
    let off = match offset {
        None => 0,
        Some(o) => if o < 0 {
            0
        } else {
            o as int
        },
    };
    let lo = if off > len {
        len
    } else {
        off
    };
    let hi = if lo + lim > len {
        len
    } else {
        lo + lim
    };
    (lo, hi)
}

/// Takes the page that `limit` and `offset` select, after any filtering.
pub fn paginate_entries(entries: &Vec<MediaEntry>, limit: Option<i64>, offset: Option<i64>) -> (r:
    Vec<MediaEntry>)
    ensures
        ({
            let (lo, hi) = spec_page_bounds(entries@.len() as int, limit, offset);
            r.deep_view() == entries.deep_view().subrange(lo, hi)
        }),
{
    let len = entries.len();
    let lim_raw: i64 = match limit {
        None => 100,
        Some(l) => if l < 0 {
            0
        } else {
            l
        },
    };
    let off_raw: i64 = match offset {
        None => 0,
        Some(o) => if o < 0 {
            0
        } else {
            o
        },
    };
    let lim_u: u64 = lim_raw as u64;
    let off_u: u64 = off_raw as u64;
    let lo: usize = if off_u >= len as u64 {
        len
    } else {
        off_u as usize
    };
    let remaining: usize = len - lo;
    let hi: usize = if lim_u >= remaining as u64 {
        len
    } else {
        lo + (lim_u as usize)
    };
    let ghost glo = lo as int;
    let ghost ghi = hi as int;
    let mut r: Vec<MediaEntry> = Vec::new();
    let mut i: usize = lo;
    proof {
        let (slo, shi) = spec_page_bounds(entries@.len() as int, limit, offset);
        assert(slo == glo);
        assert(shi == ghi);
        assert(r.deep_view() =~= entries.deep_view().subrange(glo, glo));
    }
    while i < hi
        invariant
            glo == lo as int,
            lo <= i <= hi <= entries@.len(),
            ghi == hi as int,
            entries.deep_view().len() == entries@.len(),
            r.deep_view() == entries.deep_view().subrange(glo, i as int),
        decreases hi - i,
    {
        let ghost before = r.deep_view();
        r.push(clone_entry(&entries[i]));
        proof {
            assert(entries.deep_view()[i as int] == entries@[i as int].deep_view());
            assert(entries.deep_view().subrange(glo, i + 1) =~= entries.deep_view().subrange(
                glo,
                i as int,
            ).push(entries.deep_view()[i as int]));
            assert(r.deep_view() =~= before.push(entries@[i as int].deep_view()));
        }
        i = i + 1;
    }
    r
}

/// View of an optional string option.
pub open spec fn opt_str_view(o: Option<&str>) -> Option<Seq<char>> {
    match o {
        None => None,
        Some(s) => Some(s@),
    }
}

/// The SQL filter a `type` parameter adds: only files, only directories,
/// or nothing for an unknown word.
pub open spec fn spec_type_fragment(t: Option<Seq<char>>) -> Seq<char> {
    match t {
        None => Seq::empty(),
        Some(s) => if s == "file"@ {
            " AND mime_type IS NOT NULL"@
        } else if s == "directory"@ {
            " AND mime_type IS NULL"@
        } else {
            Seq::empty()
        },
    }
}

/// The SQL filter a `kind` parameter adds, selecting entries by the type
/// prefix of their MIME string.
pub open spec fn spec_kind_fragment(k: Option<Seq<char>>) -> Seq<char> {
    match k {
        None => Seq::empty(),
        Some(s) => if s == "image"@ {
            " AND mime_type LIKE 'image/%'"@
        } else if s == "video"@ {
            " AND mime_type LIKE 'video/%'"@
        } else if s == "audio"@ {
            " AND mime_type LIKE 'audio/%'"@
        } else if s == "other"@ {
            " AND mime_type IS NOT NULL AND mime_type NOT LIKE 'image/%' AND mime_type NOT LIKE 'video/%' AND mime_type NOT LIKE 'audio/%'"@
        } else {
            Seq::empty()
        },
    }
}

/// The column a `sort` parameter orders by; anything unknown sorts by
/// name.
pub open spec fn spec_sort_column(s: Option<Seq<char>>) -> Seq<char> {
    match s {
        None => "name"@,
        Some(x) => if x == "created"@ || x == "created_at"@ {
            "created_at"@
        } else if x == "size"@ {
            "size"@
        } else {
            "name"@
        },
    }
}

/// The word `desc`, in any mix of case.
pub open spec fn spec_is_desc_word(s: Seq<char>) -> bool {
    s.len() == 4 && (s[0] == 'd' || s[0] == 'D') && (s[1] == 'e' || s[1] == 'E') && (s[2] == 's'
        || s[2] == 'S') && (s[3] == 'c' || s[3] == 'C')
}

/// The SQL sort direction an `order` parameter selects; anything but
/// `desc` (in any case) sorts ascending.
pub open spec fn spec_order_word(o: Option<Seq<char>>) -> Seq<char> {
    match o {
        None => "ASC"@,
        Some(x) => if spec_is_desc_word(x) {
            "DESC"@
        } else {
            "ASC"@
        },
    }
}

/// The full child-listing statement: the fixed selection, the optional
/// type and kind filters, the sort clause, and — when pagination runs in
/// the statement rather than after tag filtering — a limit and offset.
pub open spec fn spec_children_query(
    t: Option<Seq<char>>,
    k: Option<Seq<char>>,
    s: Option<Seq<char>>,
    o: Option<Seq<char>>,
    with_pagination: bool,
) -> Seq<char> {
    "SELECT id, name, path, parent_id, mime_type, size, tags, thumb_path, width, height, duration_secs, created_at FROM media WHERE parent_id IS ?"@
        + spec_type_fragment(t) + spec_kind_fragment(k) + " ORDER BY "@ + spec_sort_column(s)
        + " "@ + spec_order_word(o) + if with_pagination {
        " LIMIT ? OFFSET ?"@
    } else {
        Seq::<char>::empty()
    }
}

fn is_desc_word(o: &str) -> (r: bool)
    ensures
        r == spec_is_desc_word(o@),
{
    if o.unicode_len() != 4 {
        return false;
    }
    let c0 = o.get_char(0);
    let c1 = o.get_char(1);
    let c2 = o.get_char(2);
    let c3 = o.get_char(3);
    (c0 == 'd' || c0 == 'D') && (c1 == 'e' || c1 == 'E') && (c2 == 's' || c2 == 'S') && (c3 == 'c'
        || c3 == 'C')
}

/// Builds the child-listing SQL statement for the given filters, sort and
/// pagination choice, mapping only known parameter values to fragments.
pub fn build_children_query(
    type_filter: Option<&str>,
    kind_filter: Option<&str>,
    sort: Option<&str>,
    order: Option<&str>,
    with_pagination: bool,
) -> (r: String)
    ensures
        r@ == spec_children_query(
            opt_str_view(type_filter),
            opt_str_view(kind_filter),
            opt_str_view(sort),
            opt_str_view(order),
            with_pagination,
        ),
{
    let mut r = String::from_str(
        "SELECT id, name, path, parent_id, mime_type, size, tags, thumb_path, width, height, duration_secs, created_at FROM media WHERE parent_id IS ?",
    );
    match type_filter {
        None => {
            proof {
                assert(r@ + Seq::<char>::empty() =~= r@);
            }
        },
        Some(t) => {
            if str_eq(t, "file") {
                r.append(" AND mime_type IS NOT NULL");
            } else if str_eq(t, "directory") {
                r.append(" AND mime_type IS NULL");
            } else {
                proof {
                    assert(r@ + Seq::<char>::empty() =~= r@);
                }
            }
        },
    }
    match kind_filter {
        None => {
            proof {
                assert(r@ + Seq::<char>::empty() =~= r@);
            }
        },
        Some(k) => {
            if str_eq(k, "image") {
                r.append(" AND mime_type LIKE 'image/%'");
            } else if str_eq(k, "video") {
                r.append(" AND mime_type LIKE 'video/%'");
            } else if str_eq(k, "audio") {
                r.append(" AND mime_type LIKE 'audio/%'");
            } else if str_eq(k, "other") {
                r.append(
                    " AND mime_type IS NOT NULL AND mime_type NOT LIKE 'image/%' AND mime_type NOT LIKE 'video/%' AND mime_type NOT LIKE 'audio/%'",
                );
            } else {
                proof {
                    assert(r@ + Seq::<char>::empty() =~= r@);
                }
            }
        },
    }
    r.append(" ORDER BY ");
    match sort {
        None => {
            r.append("name");
        },
        Some(s) => {
            if str_eq(s, "created") || str_eq(s, "created_at") {
                r.append("created_at");
            } else if str_eq(s, "size") {
                r.append("size");
            } else {
                r.append("name");
            }
        },
    }
    r.append(" ");
    match order {
        None => {
            r.append("ASC");
        },
        Some(o) => {
            if is_desc_word(o) {
                r.append("DESC");
            } else {
                r.append("ASC");
            }
        },
    }
    if with_pagination {
        r.append(" LIMIT ? OFFSET ?");
    } else {
        proof {
            assert(r@ + Seq::<char>::empty() =~= r@);
        }
    }
    r
}

/// The MIME type guessed for a path, as `mime_guess` derives it from the
/// path's extension, falling back to a generic binary type.
pub uninterp spec fn spec_guessed_mime(path: Seq<char>) -> Seq<char>;

/// Relies on mime_guess::from_path and MimeGuess::first_or_octet_stream:
/// the guess is a pure table lookup on the path's extension, and the
/// fallback is the fixed type `application/octet-stream`.
#[verifier::external_body]
fn guess_mime(path: &str) -> (r: String)
    ensures
        r@ == spec_guessed_mime(path@),
{
    mime_guess::from_path(path).first_or_octet_stream().to_string()
}

/// The catalog record the scanner writes for a file it found: the MIME
/// type is guessed from the path, the size recorded, and no derivative
/// metadata exists yet.
pub fn new_file_entry(name: String, rel_path: String, parent_id: Option<i64>, size: i64) -> (r:
    NewMediaEntry)
    ensures
        r.name@ == name@,
        r.path@ == rel_path@,
        r.parent_id == parent_id,
        r.mime_type.deep_view() == Some(spec_guessed_mime(rel_path@)),
        r.size == Some(size),
        r.tags is None,
        r.thumb_path is None,
        r.width is None,
        r.height is None,
        r.duration_secs is None,
{
    let mime = guess_mime(rel_path.as_str());
    NewMediaEntry {
        name,
        path: rel_path,
        parent_id,
        mime_type: Some(mime),
        size: Some(size),
        tags: None,
        thumb_path: None,
        width: None,
        height: None,
        duration_secs: None,
    }
}

/// The catalog record the scanner writes for a directory: no MIME type
/// marks it as one, and it carries no size or derivative metadata.
pub fn new_dir_entry(name: String, rel_path: String, parent_id: Option<i64>) -> (r: NewMediaEntry)
    ensures
        r.name@ == name@,
        r.path@ == rel_path@,
        r.parent_id == parent_id,
        r.mime_type is None,
        r.size is None,
        r.tags is None,
        r.thumb_path is None,
        r.width is None,
        r.height is None,
        r.duration_secs is None,
{
    NewMediaEntry {
        name,
        path: rel_path,
        parent_id,
        mime_type: None,
        size: None,
        tags: None,
        thumb_path: None,
        width: None,
        height: None,
        duration_secs: None,
    }
}

/// The kind label a file entry is listed under, derived from its MIME
/// type: an entry without one (a directory) gets no label.
pub fn classify_kind(mime: Option<&str>) -> (r: Option<&'static str>)
    ensures
        spec_media_kind(spec_mime_view(mime)) is Directory <==> r is None,
        spec_media_kind(spec_mime_view(mime)) is Image ==> r is Some && r->0@ == "image"@,
        spec_media_kind(spec_mime_view(mime)) is Video ==> r is Some && r->0@ == "video"@,
        spec_media_kind(spec_mime_view(mime)) is Audio ==> r is Some && r->0@ == "audio"@,
        spec_media_kind(spec_mime_view(mime)) is Other ==> r is Some && r->0@ == "other"@,
{
    match media_kind(mime) {
        MediaKind::Directory => None,
        MediaKind::Image => Some("image"),
        MediaKind::Video => Some("video"),
        MediaKind::Audio => Some("audio"),
        MediaKind::Other => Some("other"),
    }
}

} // verus!
