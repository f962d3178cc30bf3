//! The OpenType shaping backend as the engine sees it: tags, text buffers,
//! faces, fonts and shape plans, each held as the plain values that the
//! engine's decisions read.

use vstd::prelude::*;
use crate::bytes::bytes_equal;
use crate::graphite2;

verus! {

/// A four-byte OpenType tag, most significant byte first.
#[derive(Copy, Clone, Debug, PartialEq, Eq, Structural)]
pub struct Tag(pub u32);

/// How many bytes of `b` a tag takes: the bytes before the first zero
/// byte, four at most.
pub open spec fn tag_prefix_len(b: Seq<u8>) -> int {
    if b.len() == 0 || b[0] == 0 {
        0
    } else if b.len() == 1 || b[1] == 0 {
        1
    } else if b.len() == 2 || b[2] == 0 {
        2
    } else if b.len() == 3 || b[3] == 0 {
        3
    } else {
        4
    }
}

/// Byte `i` of the tag made from `b`: the byte of `b` where the tag takes
/// one, a space after that.
pub open spec fn tag_byte(b: Seq<u8>, i: int) -> int {
    if i < tag_prefix_len(b) {
        b[i] as int
    } else {
        0x20
    }
}

/// The tag made from a byte string: its first four bytes, padded with
/// spaces; a string that is empty or starts with a zero byte gives the tag 0.
pub open spec fn tag_from_bytes(b: Seq<u8>) -> u32 {
    if tag_prefix_len(b) == 0 {
        0
    } else {
        (tag_byte(b, 0) * 0x100_0000 + tag_byte(b, 1) * 0x1_0000 + tag_byte(b, 2) * 0x100
            + tag_byte(b, 3)) as u32
    }
}

impl Tag {
    /// The tag with the given value.
    pub fn new(val: u32) -> (t: Tag)
        ensures
            t.0 == val,
    {
        Tag(val)
    }

    /// The tag's value.
    pub fn to_raw(self) -> (r: u32)
        ensures
            r == self.0,
    {
        self.0
    }

    /// The tag spelled by a byte string: see [`tag_from_bytes`].
    pub fn from_bytes(val: &[u8]) -> (t: Tag)
        ensures
            t.0 == tag_from_bytes(val@),
    {
        if val.len() == 0 || val[0] == 0 {
            return Tag(0);
        }
        let mut raw: u32 = 0;
        let mut i: usize = 0;
        let mut open = true;
        while i < 4
            invariant
                i <= 4,
                tag_prefix_len(val@) > 0,
                open ==> i <= tag_prefix_len(val@),
                open ==> i <= val@.len(),
                !open ==> i > tag_prefix_len(val@),
                i == 0 ==> raw == 0,
                i == 1 ==> raw == tag_byte(val@, 0),
                i == 2 ==> raw == tag_byte(val@, 0) * 0x100 + tag_byte(val@, 1),
                i == 3 ==> raw == tag_byte(val@, 0) * 0x1_0000 + tag_byte(val@, 1) * 0x100
                    + tag_byte(val@, 2),
                i == 4 ==> raw == tag_byte(val@, 0) * 0x100_0000 + tag_byte(val@, 1) * 0x1_0000
                    + tag_byte(val@, 2) * 0x100 + tag_byte(val@, 3),
            decreases 4 - i,
        {
            let mut byte: u8 = 0x20;
            if open && i < val.len() && val[i] != 0 {
                byte = val[i];
            } else {
                open = false;
            }
            raw = raw * 256 + byte as u32;
            i += 1;
        }
        Tag(raw)
    }
}

/// A script, as the value of its four-letter code.
#[derive(Copy, Clone, Debug, PartialEq, Eq, Structural)]
pub struct Script(pub u32);

/// The value that stands for no script.
pub const SCRIPT_INVALID: u32 = 0;

impl Script {
    /// The value that stands for no script.
    pub fn invalid() -> (r: Script)
        ensures
            r.0 == SCRIPT_INVALID,
    {
        Script(SCRIPT_INVALID)
    }
}

impl Tag {
    /// The script that the tag names: the tag 0 names none.
    pub fn to_script(self) -> (r: Script)
        ensures
            r.0 == self.0,
    {
        Script(self.0)
    }
}

/// The direction in which text runs.
#[derive(Copy, Clone, Debug, PartialEq, Eq, Structural)]
pub enum Direction {
    Invalid,
    LeftToRight,
    RightToLeft,
    TopToBottom,
    BottomToTop,
}

/// A language, by its name; the empty name stands for no language.
#[derive(Clone, Debug, PartialEq, Eq)]
pub struct Language(pub Vec<u8>);

impl View for Language {
    type V = Seq<u8>;

    open spec fn view(&self) -> Seq<u8> {
        self.0@
    }
}

impl Language {
    /// The language with the given name.
    pub fn from_bytes(name: &[u8]) -> (r: Language)
        ensures
            r@ == name@,
    {
        Language(vstd::slice::slice_to_vec(name))
    }

    /// The language's name, or `None` for no language.
    pub fn to_bytes(&self) -> (r: Option<&[u8]>)
        ensures
            r.is_some() == (self@.len() > 0),
            r.is_some() ==> r.unwrap()@ == self@,
    {
        if self.0.len() == 0 {
            None
        } else {
            Some(self.0.as_slice())
        }
    }
}

impl Default for Language {
    /// No language.
    fn default() -> (r: Language)
        ensures
            r@.len() == 0,
    {
        Language(Vec::new())
    }
}

/// What describes a run of text to the shaper.
#[derive(Clone, Debug, PartialEq, Eq)]
pub struct SegmentProperties {
    pub direction: Direction,
    pub script: Script,
    pub language: Language,
}

/// The mathematical content of a [`SegmentProperties`].
pub struct SegmentPropertiesView {
    pub direction: Direction,
    pub script: Script,
    pub language: Seq<u8>,
}

impl View for SegmentProperties {
    type V = SegmentPropertiesView;

    open spec fn view(&self) -> SegmentPropertiesView {
        SegmentPropertiesView {
            direction: self.direction,
            script: self.script,
            language: self.language@,
        }
    }
}

impl SegmentPropertiesView {
    /// The properties of a buffer that has been given none.
    pub open spec fn unset() -> SegmentPropertiesView {
        SegmentPropertiesView {
            direction: Direction::Invalid,
            script: Script(SCRIPT_INVALID),
            language: Seq::empty(),
        }
    }
}

/// A feature setting for a range of a run.
#[derive(Copy, Clone, Debug, PartialEq, Eq, Structural)]
pub struct Feature {
    pub tag: Tag,
    pub value: u32,
    pub start: u32,
    pub end: u32,
}

/// One item of a buffer: a character before shaping, a glyph after it, and
/// the place in the text that it came from.
#[derive(Copy, Clone, Debug, PartialEq, Eq, Structural)]
pub struct GlyphInfo {
    pub codepoint: u32,
    pub cluster: u32,
}

/// Where a glyph goes: how far it moves the pen and how far it is set off.
#[derive(Copy, Clone, Debug, PartialEq, Eq, Structural)]
pub struct GlyphPosition {
    pub x_advance: i32,
    pub y_advance: i32,
    pub x_offset: i32,
    pub y_offset: i32,
}

/// What a buffer holds.
#[derive(Copy, Clone, Debug, PartialEq, Eq, Structural)]
pub enum BufferContentType {
    Invalid,
    Unicode,
    Glyphs,
}

/// The character that stands in for a broken surrogate pair.
pub const REPLACEMENT: u32 = 0xFFFD;

/// Whether `u` is the first half of a surrogate pair.
pub open spec fn is_high_surrogate(u: u16) -> bool {
    0xD800 <= u <= 0xDBFF
}

/// Whether `u` is the second half of a surrogate pair.
pub open spec fn is_low_surrogate(u: u16) -> bool {
    0xDC00 <= u <= 0xDFFF
}

/// How many code units the character at `i` takes, in text that ends at
/// `end`: two for a surrogate pair, else one.
pub open spec fn utf16_width(text: Seq<u16>, i: int, end: int) -> int {
    if is_high_surrogate(text[i]) && i + 1 < end && is_low_surrogate(text[i + 1]) {
        2
    } else {
        1
    }
}

/// The character at `i`: a surrogate pair gives the character that it
/// encodes, a surrogate without its partner gives the replacement
/// character.
pub open spec fn utf16_char(text: Seq<u16>, i: int, end: int) -> u32 {
    if utf16_width(text, i, end) == 2 {
        (0x10000 + (text[i] - 0xD800) * 0x400 + (text[i + 1] - 0xDC00)) as u32
    } else if is_high_surrogate(text[i]) || is_low_surrogate(text[i]) {
        REPLACEMENT
    } else {
        text[i] as u32
    }
}

/// The items that the code units of `text` from `i` to `end` give: one for
/// each character, with the place of its first code unit as its cluster.
pub open spec fn utf16_items(text: Seq<u16>, i: int, end: int) -> Seq<GlyphInfo>
    decreases end - i,
{
    if i < 0 || i >= end || end > text.len() {
        Seq::empty()
    } else {
        seq![GlyphInfo { codepoint: utf16_char(text, i, end), cluster: i as u32 }] + utf16_items(
            text,
            i + utf16_width(text, i, end),
            end,
        )
    }
}

/// A buffer of text on its way through the shaper: characters go in,
/// glyphs and their positions come out.
#[derive(Clone, Debug, PartialEq, Eq)]
pub struct Buffer {
    pub content_type: BufferContentType,
    pub props: SegmentProperties,
    pub infos: Vec<GlyphInfo>,
    pub positions: Vec<GlyphPosition>,
}

/// The mathematical content of a [`Buffer`].
pub struct BufferView {
    pub content_type: BufferContentType,
    pub props: SegmentPropertiesView,
    pub infos: Seq<GlyphInfo>,
    pub positions: Seq<GlyphPosition>,
}

impl View for Buffer {
    type V = BufferView;

    open spec fn view(&self) -> BufferView {
        BufferView {
            content_type: self.content_type,
            props: self.props@,
            infos: self.infos@,
            positions: self.positions@,
        }
    }
}

impl BufferView {
    /// The buffer with nothing in it and nothing set.
    pub open spec fn empty() -> BufferView {
        BufferView {
            content_type: BufferContentType::Invalid,
            props: SegmentPropertiesView::unset(),
            infos: Seq::empty(),
            positions: Seq::empty(),
        }
    }
}

/// A buffer lent out for reading.
#[derive(Copy, Clone)]
pub struct BufferRef<'a> {
    pub buffer: &'a Buffer,
}

/// A buffer lent out for writing.
pub struct BufferMut<'a> {
    pub buffer: &'a mut Buffer,
}

impl Buffer {
    /// A buffer with nothing in it and nothing set.
    pub fn new() -> (r: Buffer)
        ensures
            r@ == BufferView::empty(),
    {
        Buffer {
            content_type: BufferContentType::Invalid,
            props: SegmentProperties {
                direction: Direction::Invalid,
                script: Script(SCRIPT_INVALID),
                language: Language(Vec::new()),
            },
            infos: Vec::new(),
            positions: Vec::new(),
        }
    }

    /// Lends the buffer out for reading.
    pub fn as_ref(&self) -> (r: BufferRef<'_>)
        ensures
            *r.buffer == *self,
    {
        BufferRef { buffer: self }
    }

    /// Lends the buffer out for writing: what is written through the loan
    /// is written to the buffer.
    pub fn as_mut(&mut self) -> (r: BufferMut<'_>)
        ensures
            *r.buffer == *old(self),
            *final(self) == *final(r.buffer),
    {
        BufferMut { buffer: self }
    }
}

impl<'a> BufferRef<'a> {
    /// How many items the buffer holds.
    pub fn len(self) -> (r: usize)
        ensures
            r == self.buffer@.infos.len(),
    {
        self.buffer.infos.len()
    }

    /// Whether the buffer holds no item.
    pub fn is_empty(self) -> (r: bool)
        ensures
            r == (self.buffer@.infos.len() == 0),
    {
        self.len() == 0
    }

    /// The buffer's items.
    pub fn get_glyph_info(self) -> (r: &'a [GlyphInfo])
        ensures
            r@ == self.buffer@.infos,
    {
        self.buffer.infos.as_slice()
    }

    /// The positions of the buffer's glyphs.
    pub fn get_glyph_position(self) -> (r: &'a [GlyphPosition])
        ensures
            r@ == self.buffer@.positions,
    {
        self.buffer.positions.as_slice()
    }

    /// The script that the buffer was given.
    pub fn get_script(self) -> (r: Script)
        ensures
            r == self.buffer@.props.script,
    {
        self.buffer.props.script
    }
}

impl<'a> BufferMut<'a> {
    /// Says what the buffer holds.
    pub fn set_content_type(&mut self, content: BufferContentType)
        ensures
            final(self).buffer@ == (BufferView { content_type: content, ..old(self).buffer@ }),
            *final(final(self).buffer) == *final(old(self).buffer),
    {
        self.buffer.content_type = content;
    }

    /// Sets the direction of the text.
    pub fn set_direction(&mut self, direction: Direction)
        ensures
            final(self).buffer@ == (BufferView {
                props: SegmentPropertiesView { direction, ..old(self).buffer@.props },
                ..old(self).buffer@
            }),
            *final(final(self).buffer) == *final(old(self).buffer),
    {
        self.buffer.props.direction = direction;
    }

    /// Sets the script of the text.
    pub fn set_script(&mut self, script: Script)
        ensures
            final(self).buffer@ == (BufferView {
                props: SegmentPropertiesView { script, ..old(self).buffer@.props },
                ..old(self).buffer@
            }),
            *final(final(self).buffer) == *final(old(self).buffer),
    {
        self.buffer.props.script = script;
    }

    /// Sets the language of the text.
    pub fn set_language(&mut self, lang: Language)
        ensures
            final(self).buffer@ == (BufferView {
                props: SegmentPropertiesView { language: lang@, ..old(self).buffer@.props },
                ..old(self).buffer@
            }),
            *final(final(self).buffer) == *final(old(self).buffer),
    {
        self.buffer.props.language = lang;
    }

    /// Adds the characters that `len` code units of `text` from `offset`
    /// spell, and marks the buffer as holding characters: see
    /// [`utf16_items`].
    pub fn add_utf16(&mut self, text: &[u16], offset: usize, len: usize)
        requires
            offset + len <= text@.len(),
            text@.len() <= u32::MAX,
        ensures
            final(self).buffer@ == (BufferView {
                content_type: BufferContentType::Unicode,
                infos: old(self).buffer@.infos + utf16_items(
                    text@,
                    offset as int,
                    offset + len,
                ),
                ..old(self).buffer@
            }),
            *final(final(self).buffer) == *final(old(self).buffer),
    {
        let end: usize = offset + len;
        let mut i: usize = offset;
        let ghost start_infos = self.buffer.infos@;
        assert(start_infos + utf16_items(text@, offset as int, end as int) =~= start_infos
            + utf16_items(text@, offset as int, end as int));
        while i < end
            invariant
                offset <= i <= end <= text@.len(),
                text@.len() <= u32::MAX,
                self.buffer.infos@ + utf16_items(text@, i as int, end as int) == start_infos
                    + utf16_items(text@, offset as int, end as int),
                self.buffer.content_type == old(self).buffer.content_type,
                self.buffer.props == old(self).buffer.props,
                self.buffer.positions == old(self).buffer.positions,
                *final(self.buffer) == *final(old(self).buffer),
            decreases end - i,
        {
            let u: u16 = text[i];
            let ghost before = self.buffer.infos@;
            let ghost rest = utf16_items(text@, i + utf16_width(text@, i as int, end as int), end as int);
            let width: usize;
            let c: u32;
            if 0xD800 <= u && u <= 0xDBFF && i + 1 < end && 0xDC00 <= text[i + 1] && text[i + 1]
                <= 0xDFFF {
                c = 0x10000 + (u as u32 - 0xD800) * 0x400 + (text[i + 1] as u32 - 0xDC00);
                width = 2;
            } else if 0xD800 <= u && u <= 0xDFFF {
                c = REPLACEMENT;
                width = 1;
            } else {
                c = u as u32;
                width = 1;
            }
            let item = GlyphInfo { codepoint: c, cluster: i as u32 };
            self.buffer.infos.push(item);
            proof {
                assert(before.push(item) + rest =~= before + (seq![item] + rest));
            }
            i += width;
        }
        self.buffer.content_type = BufferContentType::Unicode;
        assert(self.buffer.infos@ + Seq::<GlyphInfo>::empty() =~= self.buffer.infos@);
    }

    /// Empties the buffer and unsets what it was given.
    pub fn reset(&mut self)
        ensures
            final(self).buffer@ == BufferView::empty(),
            *final(final(self).buffer) == *final(old(self).buffer),
    {
        self.buffer.content_type = BufferContentType::Invalid;
        self.buffer.props.direction = Direction::Invalid;
        self.buffer.props.script = Script(SCRIPT_INVALID);
        self.buffer.props.language = Language(Vec::new());
        self.buffer.infos = Vec::new();
        self.buffer.positions = Vec::new();
    }
}

/// A block of font data.
#[derive(Clone, Debug, PartialEq, Eq)]
pub struct Blob {
    pub data: Vec<u8>,
}

impl Blob {
    /// The blob that holds `data`.
    pub fn new(data: Vec<u8>) -> (r: Blob)
        ensures
            r.data@ == data@,
    {
        Blob { data }
    }
}

/// The two layout tables of a face.
#[derive(Copy, Clone, Debug, PartialEq, Eq, Structural)]
pub enum GTag {
    GPos,
    GSub,
}

/// The optical size that a face was designed for, and the range of sizes
/// that it serves.
#[derive(Copy, Clone, Debug, PartialEq, Eq, Structural)]
pub struct LayoutSizeParams {
    pub design_size: u32,
    pub subfamily_id: u32,
    pub subfamily_name_id: u32,
    pub start: u32,
    pub end: u32,
}

/// A language system of a script: its tag and the features that it uses.
#[derive(Clone, Debug, PartialEq, Eq)]
pub struct LangSys {
    pub tag: Tag,
    pub features: Vec<Tag>,
}

/// A script of a layout table: its tag and its language systems.
#[derive(Clone, Debug, PartialEq, Eq)]
pub struct ScriptRecord {
    pub tag: Tag,
    pub languages: Vec<LangSys>,
}

/// A layout table: the scripts that it serves.
#[derive(Clone, Debug, PartialEq, Eq)]
pub struct LayoutTable {
    pub scripts: Vec<ScriptRecord>,
}

/// A font face: its identity, and what its tables say that the engine
/// reads.
#[derive(Clone, Debug, PartialEq, Eq)]
pub struct Face {
    /// What tells this face from every other.
    pub id: usize,
    pub index: u32,
    pub upem: u32,
    pub gsub: LayoutTable,
    pub gpos: LayoutTable,
    pub size_params: Option<LayoutSizeParams>,
    pub has_math: bool,
    /// The face's Graphite tables, where it has them.
    pub graphite: Option<graphite2::Face>,
}

/// A face lent out for reading.
#[derive(Copy, Clone)]
pub struct FaceRef<'a> {
    pub face: &'a Face,
}

/// A face lent out for writing.
pub struct FaceMut<'a> {
    pub face: &'a mut Face,
}

/// The script tags of a table, in its order.
pub open spec fn script_tags(t: LayoutTable) -> Seq<Tag> {
    Seq::new(t.scripts@.len(), |i: int| t.scripts@[i].tag)
}

/// The language tags of a script, in its order.
pub open spec fn language_tags(s: ScriptRecord) -> Seq<Tag> {
    Seq::new(s.languages@.len(), |i: int| s.languages@[i].tag)
}

/// The first place at or after `from` where `tags` holds `tag`.
pub open spec fn first_tag(tags: Seq<Tag>, tag: Tag, from: int) -> Option<int>
    decreases tags.len() - from,
{
    if from < 0 || from >= tags.len() {
        None
    } else if tags[from] == tag {
        Some(from)
    } else {
        first_tag(tags, tag, from + 1)
    }
}

/// The tag of the default language system, `dflt`.
pub const DEFAULT_LANGUAGE_TAG: u32 = 0x64666C74;

/// The index that stands for the default language system of a script.
pub const DEFAULT_LANGUAGE_INDEX: usize = 0xFFFF;

/// The language system chosen from `langs`, looked through from `from`:
/// `Ok` with the place of the first tag of `langs` that is among `tags`;
/// else `Err` with the place of `dflt` among `tags`, or with the index
/// that stands for the default.
pub open spec fn selected_language(tags: Seq<Tag>, langs: Seq<Tag>, from: int) -> Result<
    usize,
    usize,
>
    decreases langs.len() - from,
{
    if from < 0 || from >= langs.len() {
        match first_tag(tags, Tag(DEFAULT_LANGUAGE_TAG), 0) {
            Some(i) => Err(i as usize),
            None => Err(DEFAULT_LANGUAGE_INDEX),
        }
    } else {
        match first_tag(tags, langs[from], 0) {
            Some(i) => Ok(i as usize),
            None => selected_language(tags, langs, from + 1),
        }
    }
}

/// The place of the first language system of a script with the tag `tag`.
pub fn find_language(script: &ScriptRecord, tag: Tag) -> (r: Option<usize>)
    ensures
        r.is_some() == first_tag(language_tags(*script), tag, 0).is_some(),
        r.is_some() ==> r.unwrap() == first_tag(language_tags(*script), tag, 0).unwrap(),
{
    let mut i: usize = 0;
    while i < script.languages.len()
        invariant
            i <= script.languages@.len(),
            first_tag(language_tags(*script), tag, i as int) == first_tag(
                language_tags(*script),
                tag,
                0,
            ),
        decreases script.languages@.len() - i,
    {
        assert(language_tags(*script)[i as int] == script.languages@[i as int].tag);
        if script.languages[i].tag.0 == tag.0 {
            return Some(i);
        }
        i += 1;
    }
    None
}

impl Face {
    /// A face with the given identity and with empty tables.
    pub fn new(id: usize) -> (r: Face)
        ensures
            r.id == id,
            r.index == 0,
            r.upem == 0,
            r.gsub.scripts@.len() == 0,
            r.gpos.scripts@.len() == 0,
            r.size_params.is_none(),
            !r.has_math,
            r.graphite.is_none(),
    {
        Face {
            id,
            index: 0,
            upem: 0,
            gsub: LayoutTable { scripts: Vec::new() },
            gpos: LayoutTable { scripts: Vec::new() },
            size_params: None,
            has_math: false,
            graphite: None,
        }
    }

    /// Lends the face out for reading.
    pub fn as_ref(&self) -> (r: FaceRef<'_>)
        ensures
            *r.face == *self,
    {
        FaceRef { face: self }
    }

    /// Lends the face out for writing: what is written through the loan is
    /// written to the face.
    pub fn as_mut(&mut self) -> (r: FaceMut<'_>)
        ensures
            *r.face == *old(self),
            *final(self) == *final(r.face),
    {
        FaceMut { face: self }
    }
}

impl<'a> FaceRef<'a> {
    /// The face's identity.
    pub fn as_ptr(self) -> (r: usize)
        ensures
            r == self.face.id,
    {
        self.face.id
    }

    /// The table that `tag` names.
    pub open spec fn table(self, tag: GTag) -> LayoutTable {
        match tag {
            GTag::GPos => self.face.gpos,
            GTag::GSub => self.face.gsub,
        }
    }

    fn table_of(self, tag: GTag) -> (r: &'a LayoutTable)
        ensures
            *r == self.table(tag),
    {
        match tag {
            GTag::GPos => &self.face.gpos,
            GTag::GSub => &self.face.gsub,
        }
    }

    /// Whether the face has a table for mathematics.
    pub fn has_ot_math_data(self) -> (r: bool)
        ensures
            r == self.face.has_math,
    {
        self.face.has_math
    }

    /// The optical size of the face, where it states one.
    pub fn get_ot_layout_size_params(self) -> (r: Option<LayoutSizeParams>)
        ensures
            r == self.face.size_params,
    {
        self.face.size_params
    }

    /// The tags of the scripts of a table.
    pub fn get_ot_layout_script_tags(self, tag: GTag) -> (r: Vec<Tag>)
        ensures
            r@ == script_tags(self.table(tag)),
    {
        let table = self.table_of(tag);
        let mut out: Vec<Tag> = Vec::new();
        let mut i: usize = 0;
        while i < table.scripts.len()
            invariant
                i <= table.scripts@.len(),
                out@ == script_tags(*table).take(i as int),
            decreases table.scripts@.len() - i,
        {
            out.push(table.scripts[i].tag);
            i += 1;
            assert(out@ =~= script_tags(*table).take(i as int));
        }
        assert(script_tags(*table).take(i as int) =~= script_tags(*table));
        out
    }

    /// How many language systems the script at `idx` has; none where the
    /// table has no such script.
    pub fn get_ot_layout_script_language_tags_len(self, tag: GTag, idx: usize) -> (r: usize)
        ensures
            idx < self.table(tag).scripts@.len() ==> r == self.table(tag).scripts@[idx as int].languages@.len(),
            idx >= self.table(tag).scripts@.len() ==> r == 0,
    {
        let table = self.table_of(tag);
        if idx < table.scripts.len() {
            table.scripts[idx].languages.len()
        } else {
            0
        }
    }

    /// The tags of the language systems of the script at `idx`; none where
    /// the table has no such script.
    pub fn get_ot_layout_script_language_tags(self, tag: GTag, idx: usize) -> (r: Vec<Tag>)
        ensures
            idx < self.table(tag).scripts@.len() ==> r@ == language_tags(
                self.table(tag).scripts@[idx as int],
            ),
            idx >= self.table(tag).scripts@.len() ==> r@.len() == 0,
    {
        let table = self.table_of(tag);
        let mut out: Vec<Tag> = Vec::new();
        if idx >= table.scripts.len() {
            return out;
        }
        let script = &table.scripts[idx];
        let mut i: usize = 0;
        while i < script.languages.len()
            invariant
                i <= script.languages@.len(),
                out@ == language_tags(*script).take(i as int),
            decreases script.languages@.len() - i,
        {
            out.push(script.languages[i].tag);
            i += 1;
            assert(out@ =~= language_tags(*script).take(i as int));
        }
        assert(language_tags(*script).take(i as int) =~= language_tags(*script));
        out
    }

    /// The features of a language system; none where the table has no such
    /// script or the script no such language system.
    pub open spec fn feature_tags(self, tag: GTag, script_index: int, lang_index: int) -> Seq<Tag> {
        if 0 <= script_index < self.table(tag).scripts@.len() && 0 <= lang_index < self.table(
            tag,
        ).scripts@[script_index].languages@.len() {
            self.table(tag).scripts@[script_index].languages@[lang_index].features@
        } else {
            Seq::empty()
        }
    }

    /// How many features the language system at `lang_index` of the script
    /// at `script_index` uses.
    pub fn get_ot_layout_language_feature_tags_len(
        self,
        tag: GTag,
        script_index: usize,
        lang_index: usize,
    ) -> (r: usize)
        ensures
            r == self.feature_tags(tag, script_index as int, lang_index as int).len(),
    {
        let table = self.table_of(tag);
        if script_index < table.scripts.len() && lang_index
            < table.scripts[script_index].languages.len() {
            table.scripts[script_index].languages[lang_index].features.len()
        } else {
            0
        }
    }

    /// The tags of the features that the language system at `lang_index`
    /// of the script at `script_index` uses.
    pub fn get_ot_layout_language_feature_tags(
        self,
        tag: GTag,
        script_index: usize,
        lang_index: usize,
    ) -> (r: Vec<Tag>)
        ensures
            r@ == self.feature_tags(tag, script_index as int, lang_index as int),
    {
        let table = self.table_of(tag);
        let mut out: Vec<Tag> = Vec::new();
        if script_index >= table.scripts.len() || lang_index
            >= table.scripts[script_index].languages.len() {
            assert(out@ =~= Seq::<Tag>::empty());
            return out;
        }
        let features = &table.scripts[script_index].languages[lang_index].features;
        let mut i: usize = 0;
        while i < features.len()
            invariant
                i <= features@.len(),
                out@ == features@.take(i as int),
            decreases features@.len() - i,
        {
            out.push(features[i]);
            i += 1;
            assert(out@ =~= features@.take(i as int));
        }
        assert(features@.take(i as int) =~= features@);
        out
    }

    /// The place of the first script of a table with the tag `script`.
    pub fn find_ot_layout_script(self, tag: GTag, script: Tag) -> (r: Option<usize>)
        ensures
            r.is_some() == first_tag(script_tags(self.table(tag)), script, 0).is_some(),
            r.is_some() ==> r.unwrap() == first_tag(script_tags(self.table(tag)), script, 0).unwrap(),
    {
        let table = self.table_of(tag);
        let mut i: usize = 0;
        while i < table.scripts.len()
            invariant
                i <= table.scripts@.len(),
                *table == self.table(tag),
                first_tag(script_tags(*table), script, i as int) == first_tag(
                    script_tags(*table),
                    script,
                    0,
                ),
            decreases table.scripts@.len() - i,
        {
            assert(script_tags(*table)[i as int] == table.scripts@[i as int].tag);
            if table.scripts[i].tag.0 == script.0 {
                return Some(i);
            }
            i += 1;
        }
        None
    }

    /// The language system of a script that serves the first of `langs`
    /// that the script has one for. Where it has one for none of them,
    /// the error holds its default language system: the one with the tag
    /// `dflt` if there is one, else the index that stands for the default.
    pub fn select_ot_layout_language(self, tag: GTag, script_index: usize, langs: &[Tag]) -> (r:
        Result<usize, usize>)
        requires
            script_index < self.table(tag).scripts@.len(),
        ensures
            r == selected_language(
                language_tags(self.table(tag).scripts@[script_index as int]),
                langs@,
                0,
            ),
    {
        let table = self.table_of(tag);
        let script = &table.scripts[script_index];
        let ghost tags = language_tags(*script);
        let mut i: usize = 0;
        while i < langs.len()
            invariant
                i <= langs@.len(),
                tags == language_tags(*script),
                *script == self.table(tag).scripts@[script_index as int],
                selected_language(tags, langs@, i as int) == selected_language(tags, langs@, 0),
            decreases langs@.len() - i,
        {
            match find_language(script, langs[i]) {
                Some(found) => {
                    return Ok(found);
                },
                None => {},
            }
            i += 1;
        }
        match find_language(script, Tag(DEFAULT_LANGUAGE_TAG)) {
            Some(found) => Err(found),
            None => Err(DEFAULT_LANGUAGE_INDEX),
        }
    }

    /// The face's Graphite tables, where it has them.
    pub fn gr_face(self) -> (r: Option<&'a graphite2::Face>)
        ensures
            r.is_some() == self.face.graphite.is_some(),
            r.is_some() ==> *r.unwrap() == self.face.graphite.unwrap(),
    {
        self.face.graphite.as_ref()
    }
}

impl<'a> FaceMut<'a> {
    /// Sets the face's index within its file.
    pub fn set_index(&mut self, index: u32)
        ensures
            *final(self).face == (Face { index, ..*old(self).face }),
            *final(final(self).face) == *final(old(self).face),
    {
        self.face.index = index;
    }

    /// Sets the number of design units to the em.
    pub fn set_upem(&mut self, upem: u32)
        ensures
            *final(self).face == (Face { upem, ..*old(self).face }),
            *final(final(self).face) == *final(old(self).face),
    {
        self.face.upem = upem;
    }
}

/// A face at a size.
#[derive(Clone, Debug, PartialEq, Eq)]
pub struct Font {
    /// What tells this font from every other.
    pub id: usize,
    /// The identity of the font's face.
    pub face_id: usize,
    pub x_scale: i32,
    pub y_scale: i32,
    pub x_ppem: u32,
    pub y_ppem: u32,
}

/// A font lent out for reading.
#[derive(Copy, Clone)]
pub struct FontRef<'a> {
    pub font: &'a Font,
}

/// A font lent out for writing.
pub struct FontMut<'a> {
    pub font: &'a mut Font,
}

impl Font {
    /// A font of the face, with no scale set.
    pub fn new(id: usize, face: FaceRef<'_>) -> (r: Font)
        ensures
            r == (Font { id, face_id: face.face.id, x_scale: 0, y_scale: 0, x_ppem: 0, y_ppem: 0 }),
    {
        Font { id, face_id: face.as_ptr(), x_scale: 0, y_scale: 0, x_ppem: 0, y_ppem: 0 }
    }

    /// Lends the font out for reading.
    pub fn as_ref(&self) -> (r: FontRef<'_>)
        ensures
            *r.font == *self,
    {
        FontRef { font: self }
    }

    /// Lends the font out for writing: what is written through the loan is
    /// written to the font.
    pub fn as_mut(&mut self) -> (r: FontMut<'_>)
        ensures
            *r.font == *old(self),
            *final(self) == *final(r.font),
    {
        FontMut { font: self }
    }
}

impl<'a> FontRef<'a> {
    /// The font's identity.
    pub fn as_ptr(self) -> (r: usize)
        ensures
            r == self.font.id,
    {
        self.font.id
    }

    /// The identity of the font's face.
    pub fn get_face(self) -> (r: usize)
        ensures
            r == self.font.face_id,
    {
        self.font.face_id
    }
}

impl<'a> FontMut<'a> {
    /// Sets the scale of the font's two axes.
    pub fn set_scale(&mut self, x: i32, y: i32)
        ensures
            *final(self).font == (Font { x_scale: x, y_scale: y, ..*old(self).font }),
            *final(final(self).font) == *final(old(self).font),
    {
        self.font.x_scale = x;
        self.font.y_scale = y;
    }

    /// Sets the number of pixels to the em on the font's two axes.
    pub fn set_ppem(&mut self, x: u32, y: u32)
        ensures
            *final(self).font == (Font { x_ppem: x, y_ppem: y, ..*old(self).font }),
            *final(final(self).font) == *final(old(self).font),
    {
        self.font.x_ppem = x;
        self.font.y_ppem = y;
    }
}

/// The shapers that a plan can be made for.
#[derive(Copy, Clone, Debug, PartialEq, Eq, Structural)]
pub enum Shaper {
    /// `graphite2`: the rules of the face's Graphite tables.
    Graphite2,
    /// `ot`: the face's OpenType layout tables.
    OpenType,
    /// `fallback`: no rules, each character gets its nominal glyph.
    Fallback,
}

pub const SHAPER_GRAPHITE2: [u8; 9] = [0x67, 0x72, 0x61, 0x70, 0x68, 0x69, 0x74, 0x65, 0x32];

pub const SHAPER_OT: [u8; 2] = [0x6F, 0x74];

pub const SHAPER_FALLBACK: [u8; 8] = [0x66, 0x61, 0x6C, 0x6C, 0x62, 0x61, 0x63, 0x6B];

/// The shaper that a name stands for, if it stands for one.
pub open spec fn shaper_named(name: Seq<u8>) -> Option<Shaper> {
    if name == SHAPER_GRAPHITE2@ {
        Some(Shaper::Graphite2)
    } else if name == SHAPER_OT@ {
        Some(Shaper::OpenType)
    } else if name == SHAPER_FALLBACK@ {
        Some(Shaper::Fallback)
    } else {
        None
    }
}

/// Whether a name stands for a shaper that can serve a face: the Graphite
/// shaper serves only a face with Graphite tables.
pub open spec fn shaper_serves(name: Seq<u8>, has_graphite: bool) -> bool {
    shaper_named(name).is_some() && (shaper_named(name) == Some(Shaper::Graphite2)
        ==> has_graphite)
}

/// The shaper chosen from a list of names, looked through from `from`:
/// the first that can serve the face.
pub open spec fn first_shaper(names: Seq<Seq<u8>>, has_graphite: bool, from: int) -> Option<Shaper>
    decreases names.len() - from,
{
    if from < 0 || from >= names.len() {
        None
    } else if shaper_serves(names[from], has_graphite) {
        shaper_named(names[from])
    } else {
        first_shaper(names, has_graphite, from + 1)
    }
}

/// The shaper of a plan: the first of the listed names that can serve the
/// face. Where no list is given, the Graphite shaper for a face with
/// Graphite tables, and the OpenType shaper for any other.
pub open spec fn chosen_shaper(names: Option<Seq<Seq<u8>>>, has_graphite: bool) -> Option<Shaper> {
    match names {
        Some(names) => first_shaper(names, has_graphite, 0),
        None => if has_graphite {
            Some(Shaper::Graphite2)
        } else {
            Some(Shaper::OpenType)
        },
    }
}

/// The byte strings of a list of names.
pub open spec fn name_views(names: Seq<Vec<u8>>) -> Seq<Seq<u8>> {
    names.map_values(|n: Vec<u8>| n@)
}

/// Which shaper a name stands for.
pub fn shaper_by_name(name: &[u8]) -> (r: Option<Shaper>)
    ensures
        r == shaper_named(name@),
{
    if bytes_equal(name, vstd::array::array_as_slice(&SHAPER_GRAPHITE2)) {
        Some(Shaper::Graphite2)
    } else if bytes_equal(name, vstd::array::array_as_slice(&SHAPER_OT)) {
        Some(Shaper::OpenType)
    } else if bytes_equal(name, vstd::array::array_as_slice(&SHAPER_FALLBACK)) {
        Some(Shaper::Fallback)
    } else {
        None
    }
}

/// Why no plan could be made.
#[derive(Copy, Clone, Debug, PartialEq, Eq, Structural)]
pub enum PlanFailure {
    /// None of the shapers asked for can serve the face.
    NoUsableShaper,
}

/// The error of a plan that could not be made.
#[derive(Copy, Clone, Debug, PartialEq, Eq, Structural)]
pub struct PlanBuildFailed {
    pub reason: PlanFailure,
}

/// A plan for shaping runs of given properties with a given face and
/// features: the shaper that was chosen for them.
#[derive(Clone, Debug, PartialEq, Eq)]
pub struct ShapePlan {
    pub face_id: usize,
    pub props: SegmentProperties,
    pub features: Vec<Feature>,
    pub shaper_list: Option<Vec<Vec<u8>>>,
    pub shaper: Shaper,
}

/// A plan lent out for reading.
pub struct ShapePlanRef<'a> {
    pub plan: &'a ShapePlan,
}

/// A plan lent out for writing.
pub struct ShapePlanMut<'a> {
    pub plan: &'a mut ShapePlan,
}

/// A copy of a list of names.
pub fn copy_names(names: &[Vec<u8>]) -> (r: Vec<Vec<u8>>)
    ensures
        name_views(r@) == name_views(names@),
{
    let mut out: Vec<Vec<u8>> = Vec::new();
    let mut i: usize = 0;
    assert(name_views(out@) =~= name_views(names@).take(0));
    while i < names.len()
        invariant
            i <= names@.len(),
            out@.len() == i,
            name_views(out@) == name_views(names@).take(i as int),
        decreases names@.len() - i,
    {
        let n = crate::bytes::copy_bytes(&names[i]);
        let ghost before = out@;
        out.push(n);
        i += 1;
        assert forall|k: int| 0 <= k < i implies #[trigger] name_views(out@)[k] == name_views(
            names@,
        ).take(i as int)[k] by {
            if k < i - 1 {
                assert(out@[k] == before[k]);
                assert(name_views(before)[k] == name_views(names@).take(i - 1)[k]);
            }
        }
        assert(name_views(out@) =~= name_views(names@).take(i as int));
    }
    assert(name_views(names@).take(i as int) =~= name_views(names@));
    out
}

/// A copy of a list of features.
pub fn copy_features(features: &[Feature]) -> (r: Vec<Feature>)
    ensures
        r@ == features@,
{
    vstd::slice::slice_to_vec(features)
}

/// A copy of the properties of a run.
pub fn copy_props(props: &SegmentProperties) -> (r: SegmentProperties)
    ensures
        r@ == props@,
{
    SegmentProperties {
        direction: props.direction,
        script: props.script,
        language: Language(crate::bytes::copy_bytes(&props.language.0)),
    }
}

/// The list of names that a plan is asked with, as byte strings.
pub open spec fn list_view(names: Option<&[Vec<u8>]>) -> Option<Seq<Seq<u8>>> {
    match names {
        Some(names) => Some(name_views(names@)),
        None => None,
    }
}

/// Chooses the shaper for a face from a list of names: see
/// [`chosen_shaper`].
pub fn choose_shaper(shaper_list: Option<&[Vec<u8>]>, has_graphite: bool) -> (r: Option<Shaper>)
    ensures
        r == chosen_shaper(list_view(shaper_list), has_graphite),
{
    match shaper_list {
        None => if has_graphite {
            Some(Shaper::Graphite2)
        } else {
            Some(Shaper::OpenType)
        },
        Some(names) => {
            let mut i: usize = 0;
            while i < names.len()
                invariant
                    i <= names@.len(),
                    shaper_list == Some(names),
                    first_shaper(name_views(names@), has_graphite, i as int) == first_shaper(
                        name_views(names@),
                        has_graphite,
                        0,
                    ),
                decreases names@.len() - i,
            {
                let found = shaper_by_name(names[i].as_slice());
                assert(name_views(names@)[i as int] == names@[i as int]@);
                match found {
                    Some(shaper) => {
                        let usable = match shaper {
                            Shaper::Graphite2 => has_graphite,
                            _ => true,
                        };
                        if usable {
                            return Some(shaper);
                        }
                    },
                    None => {},
                }
                i += 1;
            }
            None
        },
    }
}

impl ShapePlan {
    /// Makes a plan: chooses the shaper, and fails where none of the
    /// shapers asked for can serve the face.
    pub fn new(
        face: FaceRef<'_>,
        props: &SegmentProperties,
        features: &[Feature],
        shaper_list: Option<&[Vec<u8>]>,
    ) -> (r: Result<ShapePlan, PlanBuildFailed>)
        ensures
            r.is_ok() == chosen_shaper(list_view(shaper_list), face.face.graphite.is_some()).is_some(),
            r.is_ok() ==> {
                &&& r.unwrap().face_id == face.face.id
                &&& r.unwrap().props@ == props@
                &&& r.unwrap().features@ == features@
                &&& r.unwrap().list() == list_view(shaper_list)
                &&& Some(r.unwrap().shaper) == chosen_shaper(
                    list_view(shaper_list),
                    face.face.graphite.is_some(),
                )
            },
            r.is_err() ==> r.unwrap_err().reason == PlanFailure::NoUsableShaper,
    {
        let has_graphite = face.face.graphite.is_some();
        match choose_shaper(shaper_list, has_graphite) {
            Some(shaper) => {
                let list = match shaper_list {
                    Some(names) => Some(copy_names(names)),
                    None => None,
                };
                Ok(
                    ShapePlan {
                        face_id: face.as_ptr(),
                        props: copy_props(props),
                        features: copy_features(features),
                        shaper_list: list,
                        shaper,
                    },
                )
            },
            None => Err(PlanBuildFailed { reason: PlanFailure::NoUsableShaper }),
        }
    }

    /// The list of names that the plan was asked with, as byte strings.
    pub open spec fn list(&self) -> Option<Seq<Seq<u8>>> {
        match self.shaper_list {
            Some(names) => Some(name_views(names@)),
            None => None,
        }
    }

    /// Lends the plan out for reading.
    pub fn as_ref(&self) -> (r: ShapePlanRef<'_>)
        ensures
            *r.plan == *self,
    {
        ShapePlanRef { plan: self }
    }

    /// Lends the plan out for writing: what is written through the loan is
    /// written to the plan.
    pub fn as_mut(&mut self) -> (r: ShapePlanMut<'_>)
        ensures
            *r.plan == *old(self),
            *final(self) == *final(r.plan),
    {
        ShapePlanMut { plan: self }
    }
}

impl<'a> ShapePlanRef<'a> {
    /// The shaper that the plan was made for.
    pub fn get_shaper(&self) -> (r: Shaper)
        ensures
            r == self.plan.shaper,
    {
        self.plan.shaper
    }
}

} // verus!
