//! Tags, their 28-byte encoding, and the table that interns them.

use vstd::bytes::*;
use vstd::prelude::*;
use vstd::slice::*;
use vstd::utf8::encode_utf8;

use crate::codec::{
    field_text, fits_field, lemma_text_field_round_trip, push_text_field, read_text_field,
    text_field,
};
use crate::error::{GlobalError, Record};

verus! {

/// Bytes of the id of an encoded tag.
pub const TAG_ID_SIZE: usize = 4;

/// Bytes of the text of an encoded tag.
pub const TAG_TEXT_SIZE: usize = 24;

/// Bytes of an encoded tag.
pub const TAG_SIZE: usize = 28;

/// The id that stands for "no tag"; no real tag carries it.
pub const NO_TAG_ID: u32 = 0xFFFF_FFFF;

/// A label that groups punches.
#[derive(Clone, Debug, PartialEq, Eq)]
pub struct Tag {
    /// The position of the tag in its table.
    pub id: u32,
    /// The text of the tag, at most 24 bytes once encoded.
    pub tag: String,
}

/// What a tag holds: its id and its text.
pub struct TagView {
    pub id: u32,
    pub text: Seq<char>,
}

impl View for Tag {
    type V = TagView;

    open spec fn view(&self) -> TagView {
        TagView { id: self.id, text: self.tag@ }
    }
}

/// The tag that 28 bytes encode, or `None` where the text is not UTF-8.
pub open spec fn decode_tag(b: Seq<u8>) -> Option<TagView> {
    match field_text(b.subrange(4, 28)) {
        Some(text) => Some(TagView { id: spec_u32_from_le_bytes(b.subrange(0, 4)), text }),
        None => None,
    }
}

/// Whether a tag can be encoded: its text fits 24 bytes with no zero byte.
pub open spec fn tag_storable(t: TagView) -> bool {
    fits_field(t.text, TAG_TEXT_SIZE as nat)
}

/// The encoding of a tag: its id in little-endian order, then its text field.
pub open spec fn encode_tag(t: TagView) -> Seq<u8> {
    spec_u32_to_le_bytes(t.id) + text_field(t.text, TAG_TEXT_SIZE as nat)
}

impl Tag {
    pub open spec fn storable(self) -> bool {
        tag_storable(self@)
    }

    pub open spec fn spec_bytes(self) -> Seq<u8> {
        encode_tag(self@)
    }

    /// The tag that stands for "no tag".
    pub fn none() -> (r: Self)
        ensures
            r.id == NO_TAG_ID,
            r.tag@ == Seq::<char>::empty(),
    {
        Tag { id: NO_TAG_ID, tag: String::new() }
    }

    /// A copy of the tag.
    pub fn duplicate(&self) -> (r: Self)
        ensures
            r@ == self@,
    {
        Tag { id: self.id, tag: self.tag.clone() }
    }

    /// Encodes the tag in 28 bytes.
    pub fn to_bytes(&self) -> (r: Result<Vec<u8>, GlobalError>)
        ensures
            r is Ok <==> self.storable(),
            r matches Ok(b) ==> b@ == self.spec_bytes(),
            self.tag@.contains('\0') ==> r == Err::<Vec<u8>, GlobalError>(GlobalError::NulInText),
            !self.tag@.contains('\0') && encode_utf8(self.tag@).len() > TAG_TEXT_SIZE ==> r == Err::<
                Vec<u8>,
                GlobalError,
            >(
                GlobalError::TextTooLong {
                    actual: encode_utf8(self.tag@).len() as usize,
                    max: TAG_TEXT_SIZE,
                },
            ),
    {
        let mut buffer = u32_to_le_bytes(self.id);
        match push_text_field(&mut buffer, self.tag.as_str(), TAG_TEXT_SIZE) {
            Ok(()) => Ok(buffer),
            Err(e) => Err(e),
        }
    }

    /// Decodes a tag from exactly 28 bytes.
    pub fn try_from_bytes(buffer: &[u8]) -> (r: Result<Self, GlobalError>)
        ensures
            buffer@.len() != TAG_SIZE ==> r == Err::<Tag, GlobalError>(
                GlobalError::WrongByteLen {
                    record: Record::Tag,
                    actual: buffer@.len() as usize,
                    expected: TAG_SIZE,
                },
            ),
            buffer@.len() == TAG_SIZE ==> match decode_tag(buffer@) {
                Some(v) => r matches Ok(t) && t@ == v,
                None => r == Err::<Tag, GlobalError>(GlobalError::BadString),
            },
    {
        if buffer.len() != TAG_SIZE {
            return Err(GlobalError::wrong_byte_len(Record::Tag, buffer.len(), TAG_SIZE));
        }
        let id = u32_from_le_bytes(slice_subrange(buffer, 0, TAG_ID_SIZE));
        let text = read_text_field(slice_subrange(buffer, TAG_ID_SIZE, TAG_SIZE));
        match text {
            Ok(tag) => Ok(Tag { id, tag }),
            Err(e) => Err(e),
        }
    }
}

/// Decoding an encoded tag gives the tag back.
pub proof fn lemma_tag_round_trip(t: TagView)
    requires
        tag_storable(t),
    ensures
        encode_tag(t).len() == TAG_SIZE,
        decode_tag(encode_tag(t)) == Some(t),
{
    lemma_auto_spec_u32_to_from_le_bytes();
    lemma_text_field_round_trip(t.text, TAG_TEXT_SIZE as nat);
    let b = encode_tag(t);
    assert(b.subrange(0, 4) =~= spec_u32_to_le_bytes(t.id));
    assert(b.subrange(4, 28) =~= text_field(t.text, TAG_TEXT_SIZE as nat));
}

/// The 28 bytes of the `i`-th record of a tag table.
pub open spec fn tag_chunk(b: Seq<u8>, i: int) -> Seq<u8> {
    b.subrange(i * 28, i * 28 + 28)
}

/// Whether every record of a tag table decodes.
pub open spec fn tags_decodable(b: Seq<u8>) -> bool {
    forall|i: int| 0 <= i < b.len() / 28 ==> (#[trigger] decode_tag(tag_chunk(b, i))) is Some
}

/// The tags that the records of a tag table decode to.
pub open spec fn decode_tags(b: Seq<u8>) -> Seq<TagView> {
    Seq::new((b.len() / 28) as nat, |i: int| decode_tag(tag_chunk(b, i))->0)
}

/// The encoding of a tag table: its tags' records in order.
pub open spec fn encode_tags(s: Seq<TagView>) -> Seq<u8>
    decreases s.len(),
{
    if s.len() == 0 {
        Seq::empty()
    } else {
        encode_tags(s.drop_last()) + encode_tag(s.last())
    }
}

/// The position of the first tag whose text is `text`.
pub open spec fn find_text(s: Seq<TagView>, text: Seq<char>) -> Option<int>
    decreases s.len(),
{
    if s.len() == 0 {
        None
    } else {
        match find_text(s.drop_last(), text) {
            Some(i) => Some(i),
            None => if s.last().text == text {
                Some(s.len() - 1)
            } else {
                None
            },
        }
    }
}

/// The table after interning `text`, and the tag handed back: the first tag
/// with that text, or a new one at the end whose id is its position.
pub open spec fn intern(s: Seq<TagView>, text: Seq<char>) -> (Seq<TagView>, TagView) {
    match find_text(s, text) {
        Some(i) => (s, s[i]),
        None => {
            let t = TagView { id: s.len() as u32, text };
            (s.push(t), t)
        },
    }
}

proof fn lemma_find_text_bounds(s: Seq<TagView>, text: Seq<char>)
    ensures
        find_text(s, text) matches Some(i) ==> 0 <= i < s.len() && s[i].text == text,
    decreases s.len(),
{
    if s.len() > 0 {
        lemma_find_text_bounds(s.drop_last(), text);
    }
}

/// Interning a text twice hands back the same tag, and the second time leaves
/// the table as the first left it.
pub proof fn lemma_intern_twice(s: Seq<TagView>, text: Seq<char>)
    ensures
        intern(intern(s, text).0, text).0 == intern(s, text).0,
        intern(intern(s, text).0, text).1 == intern(s, text).1,
{
    lemma_find_text_bounds(s, text);
    if find_text(s, text) is None {
        let t = TagView { id: s.len() as u32, text };
        assert(s.push(t).drop_last() =~= s);
    }
}

proof fn lemma_encode_tags_len(s: Seq<TagView>)
    requires
        forall|j: int| 0 <= j < s.len() ==> tag_storable(#[trigger] s[j]),
    ensures
        encode_tags(s).len() == s.len() * 28,
    decreases s.len(),
{
    if s.len() > 0 {
        let p = s.drop_last();
        assert forall|j: int| 0 <= j < p.len() implies tag_storable(#[trigger] p[j]) by {
            assert(p[j] == s[j]);
        }
        lemma_encode_tags_len(p);
        lemma_tag_round_trip(s.last());
    }
}

proof fn lemma_encode_tags_chunk(s: Seq<TagView>, i: int)
    requires
        0 <= i < s.len(),
        forall|j: int| 0 <= j < s.len() ==> tag_storable(#[trigger] s[j]),
    ensures
        tag_chunk(encode_tags(s), i) == encode_tag(s[i]),
    decreases s.len(),
{
    let p = s.drop_last();
    assert forall|j: int| 0 <= j < p.len() implies tag_storable(#[trigger] p[j]) by {
        assert(p[j] == s[j]);
    }
    lemma_encode_tags_len(p);
    lemma_tag_round_trip(s.last());
    if i < s.len() - 1 {
        lemma_encode_tags_chunk(p, i);
        assert(tag_chunk(encode_tags(s), i) =~= tag_chunk(encode_tags(p), i));
    } else {
        assert(tag_chunk(encode_tags(s), i) =~= encode_tag(s.last()));
    }
}

/// Decoding an encoded tag table gives the table back.
pub proof fn lemma_tags_round_trip(s: Seq<TagView>)
    requires
        forall|j: int| 0 <= j < s.len() ==> tag_storable(#[trigger] s[j]),
    ensures
        encode_tags(s).len() % 28 == 0,
        tags_decodable(encode_tags(s)),
        decode_tags(encode_tags(s)) == s,
{
    let b = encode_tags(s);
    lemma_encode_tags_len(s);
    assert(b.len() / 28 == s.len());
    assert forall|i: int| 0 <= i < s.len() implies #[trigger] decode_tag(tag_chunk(b, i)) == Some(
        s[i],
    ) by {
        lemma_encode_tags_chunk(s, i);
        lemma_tag_round_trip(s[i]);
    }
    assert(decode_tags(b) =~= s);
}

/// The table of tags, in order of creation.
pub struct Tags(Vec<Tag>);

impl View for Tags {
    type V = Seq<TagView>;

    closed spec fn view(&self) -> Seq<TagView> {
        self.0@.map_values(|t: Tag| t@)
    }
}

impl Tags {
    /// An empty table.
    pub fn new() -> (r: Self)
        ensures
            r@ == Seq::<TagView>::empty(),
    {
        let r = Tags(Vec::new());
        assert(r@ =~= Seq::<TagView>::empty());
        r
    }

    /// The number of tags.
    pub fn len(&self) -> (r: usize)
        ensures
            r == self@.len(),
    {
        self.0.len()
    }

    /// Decodes a table from its 28-byte records; a trailing partial record
    /// is a wrong byte length.
    pub fn load(buffer: &[u8]) -> (r: Result<Self, GlobalError>)
        ensures
            buffer@.len() % 28 != 0 ==> r == Err::<Tags, GlobalError>(
                GlobalError::WrongByteLen {
                    record: Record::Tag,
                    actual: (buffer@.len() % 28) as usize,
                    expected: TAG_SIZE,
                },
            ),
            buffer@.len() % 28 == 0 && tags_decodable(buffer@) ==> (r matches Ok(t) && t@
                == decode_tags(buffer@)),
            buffer@.len() % 28 == 0 && !tags_decodable(buffer@) ==> r == Err::<Tags, GlobalError>(
                GlobalError::BadString,
            ),
    {
        let len = buffer.len();
        if len % TAG_SIZE != 0 {
            return Err(GlobalError::wrong_byte_len(Record::Tag, len % TAG_SIZE, TAG_SIZE));
        }
        let n = len / TAG_SIZE;
        let mut tags: Vec<Tag> = Vec::new();
        let mut i: usize = 0;
        while i < n
            invariant
                len == buffer@.len(),
                len % 28 == 0,
                n == len / 28,
                i <= n,
                tags@.len() == i,
                forall|j: int| 0 <= j < i ==> (#[trigger] decode_tag(tag_chunk(buffer@, j))) is Some,
                forall|j: int|
                    0 <= j < i ==> Some((#[trigger] tags@[j])@) == decode_tag(
                        tag_chunk(buffer@, j),
                    ),
            decreases n - i,
        {
            let start = i * TAG_SIZE;
            let chunk = slice_subrange(buffer, start, start + TAG_SIZE);
            assert(chunk@ =~= tag_chunk(buffer@, i as int));
            match Tag::try_from_bytes(chunk) {
                Ok(t) => tags.push(t),
                Err(e) => {
                    return Err(e);
                },
            }
            i = i + 1;
        }
        let r = Tags(tags);
        assert(r@ =~= decode_tags(buffer@));
        Ok(r)
    }

    /// Encodes every tag, in table order.
    pub fn save(&self) -> (r: Result<Vec<u8>, GlobalError>)
        ensures
            r is Ok <==> forall|j: int| 0 <= j < self@.len() ==> tag_storable(#[trigger] self@[j]),
            r matches Ok(b) ==> b@ == encode_tags(self@),
            r matches Err(e) ==> e == GlobalError::NulInText || e is TextTooLong,
    {
        let mut content: Vec<u8> = Vec::new();
        let mut i: usize = 0;
        while i < self.0.len()
            invariant
                i <= self@.len(),
                self@.len() == self.0@.len(),
                forall|j: int| 0 <= j < i ==> tag_storable(#[trigger] self@[j]),
                content@ == encode_tags(self@.subrange(0, i as int)),
            decreases self@.len() - i,
        {
            assert(self@[i as int] == self.0@[i as int]@);
            match self.0[i].to_bytes() {
                Ok(bytes) => {
                    assert(self@.subrange(0, i + 1).drop_last() =~= self@.subrange(0, i as int));
                    content.append(&mut bytes.clone());
                },
                Err(e) => {
                    return Err(e);
                },
            }
            i = i + 1;
        }
        assert(self@.subrange(0, i as int) =~= self@);
        Ok(content)
    }

    /// The tag whose text is `tag_name`, created at the end of the table with
    /// the next id where there is none.
    pub fn get_or_insert(&mut self, tag_name: String) -> (r: Tag)
        requires
            old(self)@.len() < NO_TAG_ID,
        ensures
            (final(self)@, r@) == intern(old(self)@, tag_name@),
    {
        let mut i: usize = 0;
        while i < self.0.len()
            invariant
                i <= self@.len(),
                self@.len() == self.0@.len(),
                find_text(self@.subrange(0, i as int), tag_name@) is None,
            decreases self@.len() - i,
        {
            assert(self@.subrange(0, i + 1).drop_last() =~= self@.subrange(0, i as int));
            if self.0[i].tag == tag_name {
                assert(find_text(self@.subrange(0, i + 1), tag_name@) == Some(i as int));
                proof {
                    lemma_find_text_prefix(self@, tag_name@, i + 1);
                }
                return self.0[i].duplicate();
            }
            i = i + 1;
        }
        assert(self@.subrange(0, i as int) =~= self@);
        let tag = Tag { id: self.0.len() as u32, tag: tag_name };
        let r = tag.duplicate();
        self.0.push(tag);
        assert(self@ =~= old(self)@.push(r@));
        r
    }

    /// The tag at position `id`.
    pub fn get(&self, id: u32) -> (r: Option<Tag>)
        ensures
            r is None <==> id >= self@.len(),
            r matches Some(t) ==> t@ == self@[id as int],
    {
        if (id as usize) < self.0.len() {
            Some(self.0[id as usize].duplicate())
        } else {
            None
        }
    }
}

proof fn lemma_find_text_prefix(s: Seq<TagView>, text: Seq<char>, k: int)
    requires
        0 <= k <= s.len(),
        find_text(s.subrange(0, k), text) is Some,
    ensures
        find_text(s, text) == find_text(s.subrange(0, k), text),
    decreases s.len() - k,
{
    if k < s.len() {
        assert(s.subrange(0, k + 1).drop_last() =~= s.subrange(0, k));
        lemma_find_text_prefix(s, text, k + 1);
    } else {
        assert(s.subrange(0, k) =~= s);
    }
}

} // verus!
