use vstd::prelude::*;
use crate::progress::{AchievementProgress, ProgressV};
use crate::tags::{payload_len, tag_bytes};

verus! {

/// A byte string that the file stores behind a compact/long length prefix:
/// one length byte for lengths below 255, otherwise a 255 marker followed by
/// the length as a 4-byte little-endian value.
pub struct SpaceOptimizedString {
    pub value: Vec<u8>,
}

impl View for SpaceOptimizedString {
    type V = Seq<u8>;

    open spec fn view(&self) -> Seq<u8> {
        self.value@
    }
}

impl SpaceOptimizedString {
    /// Wrap the given bytes.
    pub fn new(value: Vec<u8>) -> (r: Self)
        ensures
            r@ == value@,
    {
        SpaceOptimizedString { value }
    }

    /// The bytes of the string.
    pub fn bytes(&self) -> (r: &Vec<u8>)
        ensures
            r@ == self@,
    {
        &self.value
    }
}

/// The model of a header subobject: an achievement id and its position in
/// the owning category's runtime table.
pub struct SubobjectV {
    pub id: Seq<u8>,
    pub index: i16,
}

/// One subobject of a header: an id and a 16-bit index that the codec
/// preserves without interpreting.
pub struct HeaderSubobject {
    pub id: SpaceOptimizedString,
    pub index: i16,
}

impl View for HeaderSubobject {
    type V = SubobjectV;

    open spec fn view(&self) -> SubobjectV {
        SubobjectV { id: self.id@, index: self.index }
    }
}

impl HeaderSubobject {
    /// Build a subobject from its parts.
    pub fn new(id: SpaceOptimizedString, index: i16) -> (r: Self)
        ensures
            r@ == (SubobjectV { id: id@, index }),
    {
        HeaderSubobject { id, index }
    }
}

/// The model of a header: an achievement category tag and its subobjects.
pub struct HeaderV {
    pub tag: Seq<u8>,
    pub subobjects: Seq<SubobjectV>,
}

/// A header record: a category tag and a 16-bit-counted vector of
/// subobjects.
pub struct AchievementHeader {
    pub typ: SpaceOptimizedString,
    pub subobjects: Vec<HeaderSubobject>,
}

impl View for AchievementHeader {
    type V = HeaderV;

    open spec fn view(&self) -> HeaderV {
        HeaderV {
            tag: self.typ@,
            subobjects: self.subobjects@.map_values(|s: HeaderSubobject| s@),
        }
    }
}

impl AchievementHeader {
    /// Build a header from its parts.
    pub fn new(typ: SpaceOptimizedString, subobjects: Vec<HeaderSubobject>) -> (r: Self)
        ensures
            r@ == (HeaderV {
                tag: typ@,
                subobjects: subobjects@.map_values(|s: HeaderSubobject| s@),
            }),
    {
        AchievementHeader { typ, subobjects }
    }
}

/// The model of a content record: a variant tag, an achievement id, and the
/// progress payload.
pub struct ContentV {
    pub tag: Seq<u8>,
    pub id: Seq<u8>,
    pub progress: ProgressV,
}

/// A content record: a variant tag, an achievement id, and a progress
/// payload whose shape the tag selects.
pub struct AchievementContent {
    pub typ: SpaceOptimizedString,
    pub id: SpaceOptimizedString,
    pub progress: AchievementProgress,
}

impl View for AchievementContent {
    type V = ContentV;

    open spec fn view(&self) -> ContentV {
        ContentV { tag: self.typ@, id: self.id@, progress: self.progress@ }
    }
}

impl AchievementContent {
    /// Build a content record from its parts.
    pub fn new(
        typ: SpaceOptimizedString,
        id: SpaceOptimizedString,
        progress: AchievementProgress,
    ) -> (r: Self)
        ensures
            r@ == (ContentV { tag: typ@, id: id@, progress: progress@ }),
    {
        AchievementContent { typ, id, progress }
    }
}

/// The model of a whole achievements file.
pub struct FileV {
    pub version: Seq<i16>,
    pub unused: u8,
    pub headers: Seq<HeaderV>,
    pub contents: Seq<ContentV>,
    pub tracked_entries: Seq<i16>,
}

/// A decoded achievements file: a version quad, a reserved byte kept
/// verbatim, the headers and contents tables, and the trailing tracked
/// values.
pub struct AchievementsDat {
    pub version: [i16; 4],
    pub unused: u8,
    pub headers: Vec<AchievementHeader>,
    pub contents: Vec<AchievementContent>,
    pub tracked_entries: Vec<i16>,
}

impl View for AchievementsDat {
    type V = FileV;

    open spec fn view(&self) -> FileV {
        FileV {
            version: self.version@,
            unused: self.unused,
            headers: self.headers@.map_values(|h: AchievementHeader| h@),
            contents: self.contents@.map_values(|c: AchievementContent| c@),
            tracked_entries: self.tracked_entries@,
        }
    }
}

impl AchievementsDat {
    /// Build a file tree from its parts.
    pub fn new(
        version: [i16; 4],
        unused: u8,
        headers: Vec<AchievementHeader>,
        contents: Vec<AchievementContent>,
        tracked_entries: Vec<i16>,
    ) -> (r: Self)
        ensures
            r@ == (FileV {
                version: version@,
                unused,
                headers: headers@.map_values(|h: AchievementHeader| h@),
                contents: contents@.map_values(|c: AchievementContent| c@),
                tracked_entries: tracked_entries@,
            }),
    {
        AchievementsDat { version, unused, headers, contents, tracked_entries }
    }
}

/// A byte string the file can carry: its length fits the 4-byte long form.
pub open spec fn wf_string(s: Seq<u8>) -> bool {
    s.len() <= u32::MAX
}

/// A subobject the file can carry.
pub open spec fn wf_subobject(s: SubobjectV) -> bool {
    wf_string(s.id)
}

/// A header the file can carry: its tag and ids are encodable and its
/// subobject count fits the 2-byte count.
pub open spec fn wf_header(h: HeaderV) -> bool {
    &&& wf_string(h.tag)
    &&& h.subobjects.len() <= u16::MAX
    &&& forall|i: int| 0 <= i < h.subobjects.len() ==> wf_subobject(#[trigger] h.subobjects[i])
}

/// A progress payload that agrees with the fixed shape of its variant.
pub open spec fn wf_progress(p: ProgressV) -> bool {
    p.payload.len() == payload_len(p.kind)
}

/// A content the file can carry: the tag names exactly the variant of the
/// progress payload, and the id is encodable.
pub open spec fn wf_content(c: ContentV) -> bool {
    &&& c.tag == tag_bytes(c.progress.kind)
    &&& wf_string(c.id)
    &&& wf_progress(c.progress)
}

/// A file tree the encoder can write: a four-entry version quad, counts that
/// fit their on-disk widths, and well-formed records throughout.
pub open spec fn wf_file(f: FileV) -> bool {
    &&& f.version.len() == 4
    &&& f.headers.len() <= u16::MAX
    &&& f.contents.len() <= u32::MAX
    &&& forall|i: int| 0 <= i < f.headers.len() ==> wf_header(#[trigger] f.headers[i])
    &&& forall|i: int| 0 <= i < f.contents.len() ==> wf_content(#[trigger] f.contents[i])
}

} // verus!
