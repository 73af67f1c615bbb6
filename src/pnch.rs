//! Punches, their lifecycle from open to closed, their 92-byte encoding and
//! the store that holds them.

use vstd::bytes::*;
use vstd::multiset::Multiset;
use vstd::prelude::*;
use vstd::slice::*;
use vstd::string::*;
use vstd::utf8::encode_utf8;

use crate::codec::{
    field_text, fits_field, lemma_text_field_round_trip, push_text_field, read_text_field,
    text_field,
};
use crate::error::{GlobalError, Record};
use crate::tag::{Tag, TagView, Tags, NO_TAG_ID};
use crate::text::{split_first, split_once};
use crate::time::{lemma_date_round_trip, Date, Time, DATE_SIZE};

verus! {

/// Bytes of the description field of an encoded punch.
pub const DESCRIPTION_SIZE: usize = 80;

/// Bytes of an encoded punch.
pub const PNCH_SIZE: usize = 92;

/// One tracked activity: when it began, when it ended, its tag and its
/// description.
#[derive(Debug, Clone, PartialEq, Eq)]
pub struct Pnch {
    /// The position of the punch in its store when the store was loaded.
    pub id: u32,
    /// The day of the activity, set when the punch is created.
    pub date: Date,
    /// When the activity began.
    pub _in: Time,
    /// When the activity ended; `None` while the punch is open.
    pub out: Option<Time>,
    /// A copy of the tag of the activity.
    pub tag: Option<Tag>,
    /// What was done.
    pub description: Option<String>,
}

/// What a punch holds.
pub struct PnchView {
    pub id: u32,
    pub date: Date,
    pub time_in: Time,
    pub out: Option<Time>,
    pub tag: Option<TagView>,
    pub description: Option<Seq<char>>,
}

impl View for Pnch {
    type V = PnchView;

    open spec fn view(&self) -> PnchView {
        PnchView {
            id: self.id,
            date: self.date,
            time_in: self._in,
            out: self.out,
            tag: match self.tag {
                Some(t) => Some(t@),
                None => None,
            },
            description: match self.description {
                Some(d) => Some(d@),
                None => None,
            },
        }
    }
}

/// Whether the punch carries a description that is not empty.
pub open spec fn has_description(p: PnchView) -> bool {
    p.description matches Some(d) && d.len() > 0
}

/// Whether closing `p` at `time`, with `description` supplied, fails: the
/// punch is closed, the time comes before the time in, a supplied description
/// meets one already there (even an empty one), or the punch would close
/// without a description that is not empty.
pub open spec fn out_fails(p: PnchView, time: Time, description: Option<Seq<char>>) -> bool {
    ||| p.out is Some
    ||| time.rank() < p.time_in.rank()
    ||| (description is Some && p.description is Some)
    ||| (description matches Some(d) && d.len() == 0)
    ||| (description is None && !has_description(p))
}

/// The punch once closed at `time`: a supplied description replaces the
/// description and the tag.
pub open spec fn closed_with(
    p: PnchView,
    time: Time,
    tag: Option<TagView>,
    description: Option<Seq<char>>,
) -> PnchView {
    match description {
        Some(d) => PnchView { out: Some(time), tag, description: Some(d), ..p },
        None => PnchView { out: Some(time), ..p },
    }
}

/// The text of the description of a punch; empty without one.
pub open spec fn description_text(p: PnchView) -> Seq<char> {
    match p.description {
        Some(d) => d,
        None => Seq::empty(),
    }
}

/// The id field of an encoded punch for its tag.
pub open spec fn tag_id_of(tag: Option<TagView>) -> u32 {
    match tag {
        Some(t) => t.id,
        None => NO_TAG_ID,
    }
}

/// The encoding of a punch: date, in, out (`0xFF 0xFF` when open), tag id
/// (all `0xFF` without a tag) and the description field.
pub open spec fn encode_pnch(p: PnchView) -> Seq<u8> {
    let out = match p.out {
        Some(t) => t,
        None => Time { hours: 0xFF, minutes: 0xFF },
    };
    p.date.spec_bytes() + seq![p.time_in.hours, p.time_in.minutes, out.hours, out.minutes]
        + spec_u32_to_le_bytes(tag_id_of(p.tag)) + text_field(
        description_text(p),
        DESCRIPTION_SIZE as nat,
    )
}

/// Whether a punch can be encoded: its description fits 80 bytes with no
/// NUL character.
pub open spec fn pnch_storable(p: PnchView) -> bool {
    fits_field(description_text(p), DESCRIPTION_SIZE as nat)
}

/// The tag that a stored id refers to in `tags`: none for the sentinel id or
/// an id past the end of the table.
pub open spec fn resolve_tag(tags: Seq<TagView>, id: u32) -> Option<TagView> {
    if id == NO_TAG_ID || id >= tags.len() {
        None
    } else {
        Some(tags[id as int])
    }
}

/// The punch that 92 bytes encode, given its id and the tag table, or `None`
/// where the description is not UTF-8.
pub open spec fn decode_pnch(b: Seq<u8>, id: u32, tags: Seq<TagView>) -> Option<PnchView> {
    match field_text(b.subrange(12, 92)) {
        Some(text) => Some(
            PnchView {
                id,
                date: Date::spec_from_bytes(b.subrange(0, 4)),
                time_in: Time { hours: b[4], minutes: b[5] },
                out: if b[6] == 0xFF && b[7] == 0xFF {
                    None
                } else {
                    Some(Time { hours: b[6], minutes: b[7] })
                },
                tag: resolve_tag(tags, spec_u32_from_le_bytes(b.subrange(8, 12))),
                description: if text.len() == 0 {
                    None
                } else {
                    Some(text)
                },
            },
        ),
        None => None,
    }
}

/// Whether a punch comes back unchanged from its encoding as the `id`-th
/// record, decoded against `tags`: an open punch is not marked by the
/// sentinel time, a tag is the one that its id finds in `tags`, and a
/// description is not empty.
pub open spec fn pnch_restorable(p: PnchView, tags: Seq<TagView>) -> bool {
    &&& pnch_storable(p)
    &&& !(p.out matches Some(t) && t.hours == 0xFF && t.minutes == 0xFF)
    &&& resolve_tag(tags, tag_id_of(p.tag)) == p.tag
    &&& !(p.description matches Some(d) && d.len() == 0)
}

/// Decoding an encoded punch gives the punch back.
pub proof fn lemma_pnch_round_trip(p: PnchView, tags: Seq<TagView>)
    requires
        pnch_restorable(p, tags),
    ensures
        encode_pnch(p).len() == PNCH_SIZE,
        decode_pnch(encode_pnch(p), p.id, tags) == Some(p),
{
    let text = description_text(p);
    assert(fits_field(text, DESCRIPTION_SIZE as nat)) by {
        if p.description is None {
            vstd::utf8::encode_utf8_decode_utf8(text);
            assert(encode_utf8(text) =~= Seq::<u8>::empty());
        }
    }
    lemma_text_field_round_trip(text, DESCRIPTION_SIZE as nat);
    lemma_auto_spec_u32_to_from_le_bytes();
    lemma_date_round_trip(p.date);
    let b = encode_pnch(p);
    assert(b.subrange(0, 4) =~= p.date.spec_bytes());
    assert(b.subrange(8, 12) =~= spec_u32_to_le_bytes(tag_id_of(p.tag)));
    assert(b.subrange(12, 92) =~= text_field(text, DESCRIPTION_SIZE as nat));
    let q = decode_pnch(b, p.id, tags)->0;
    assert(q.tag == p.tag);
    assert(q.description == p.description);
    assert(q.out == p.out);
}

proof fn lemma_encode_pnch_len(p: PnchView)
    requires
        pnch_storable(p),
    ensures
        encode_pnch(p).len() == PNCH_SIZE,
{
    let text = description_text(p);
    assert(fits_field(text, DESCRIPTION_SIZE as nat)) by {
        if p.description is None {
            assert(encode_utf8(text) =~= Seq::<u8>::empty());
        }
    }
    lemma_auto_spec_u32_to_from_le_bytes();
    lemma_date_round_trip(p.date);
}

proof fn lemma_encode_pnchs_len(s: Seq<PnchView>)
    requires
        forall|j: int| 0 <= j < s.len() ==> pnch_storable(#[trigger] s[j]),
    ensures
        encode_pnchs(s).len() == s.len() * 92,
    decreases s.len(),
{
    if s.len() > 0 {
        let p = s.drop_last();
        assert forall|j: int| 0 <= j < p.len() implies pnch_storable(#[trigger] p[j]) by {
            assert(p[j] == s[j]);
        }
        lemma_encode_pnchs_len(p);
        lemma_encode_pnch_len(s.last());
    }
}

proof fn lemma_encode_pnchs_chunk(s: Seq<PnchView>, i: int)
    requires
        0 <= i < s.len(),
        forall|j: int| 0 <= j < s.len() ==> pnch_storable(#[trigger] s[j]),
    ensures
        pnch_chunk(encode_pnchs(s), i) == encode_pnch(s[i]),
    decreases s.len(),
{
    let p = s.drop_last();
    assert forall|j: int| 0 <= j < p.len() implies pnch_storable(#[trigger] p[j]) by {
        assert(p[j] == s[j]);
    }
    lemma_encode_pnchs_len(p);
    lemma_encode_pnch_len(s.last());
    if i < s.len() - 1 {
        lemma_encode_pnchs_chunk(p, i);
        assert(pnch_chunk(encode_pnchs(s), i) =~= pnch_chunk(encode_pnchs(p), i));
    } else {
        assert(pnch_chunk(encode_pnchs(s), i) =~= encode_pnch(s.last()));
    }
}

/// Decoding an encoded store gives its punches back, in the order in which
/// they were saved, where each punch's id is its slot and comes back
/// unchanged from its own record.
pub proof fn lemma_pnchs_round_trip(s: Seq<PnchView>, tags: Seq<TagView>)
    requires
        s.len() <= u32::MAX,
        forall|j: int| 0 <= j < s.len() ==> pnch_restorable(#[trigger] s[j], tags),
        forall|j: int| 0 <= j < s.len() ==> (#[trigger] s[j]).id == j,
    ensures
        encode_pnchs(s).len() % 92 == 0,
        pnchs_decodable(encode_pnchs(s), tags),
        decode_pnchs(encode_pnchs(s), tags) == s,
{
    let b = encode_pnchs(s);
    lemma_encode_pnchs_len(s);
    assert(b.len() / 92 == s.len());
    assert forall|i: int| 0 <= i < s.len() implies #[trigger] decode_pnch(
        pnch_chunk(b, i),
        i as u32,
        tags,
    ) == Some(s[i]) by {
        lemma_encode_pnchs_chunk(s, i);
        lemma_pnch_round_trip(s[i], tags);
    }
    assert(decode_pnchs(b, tags) =~= s);
}

impl Pnch {
    /// An open punch dated today.
    pub fn new(id: u32, time: Time, tag: Option<Tag>, description: Option<String>) -> (r: Self)
        ensures
            r.id == id,
            r._in == time,
            r.out is None,
            r.tag == tag,
            r.description == description,
            1 <= r.date.month <= 12,
            1 <= r.date.day <= 31,
    {
        Pnch { id, _in: time, out: None, date: Date::today(), description, tag }
    }

    /// Closes the punch at `time`. A supplied description, with the tag that
    /// came with it, is taken only where the punch has none yet; a punch
    /// closes only with a description that is not empty. On failure the
    /// punch is left as it was.
    pub fn out(&mut self, time: Time, tag: Option<Tag>, description: Option<String>) -> (r: Result<
        (),
        GlobalError,
    >)
        ensures
            r is Ok <==> !out_fails(
                old(self)@,
                time,
                match description {
                    Some(d) => Some(d@),
                    None => None,
                },
            ),
            r is Ok ==> final(self)@ == closed_with(
                old(self)@,
                time,
                match tag {
                    Some(t) => Some(t@),
                    None => None,
                },
                match description {
                    Some(d) => Some(d@),
                    None => None,
                },
            ),
            r is Err ==> *final(self) == *old(self),
            old(self).out is Some ==> r == Err::<(), GlobalError>(GlobalError::PnchAlreadyClosed),
            old(self).out is None && time.rank() < old(self)._in.rank() ==> r == Err::<
                (),
                GlobalError,
            >(GlobalError::PnchOutBeforeIn { time_in: old(self)._in, out: time }),
            old(self).out is None && time.rank() >= old(self)._in.rank() && description is Some
                && old(self).description is Some ==> (r matches Err(e)
                && e is DescAlreadySpecified),
            old(self).out is None && time.rank() >= old(self)._in.rank() && !(description is Some
                && old(self).description is Some) && r is Err ==> r == Err::<(), GlobalError>(
                GlobalError::DescNotSpecified,
            ),
            time.rank() < old(self)._in.rank() ==> r is Err,
            old(self).description is None && description is None ==> r is Err,
    {
        if self.out.is_some() {
            return Err(GlobalError::pnch_already_closed());
        }
        if time.is_before(&self._in) {
            return Err(GlobalError::pnch_out_before_in(self._in, time));
        }
        match description {
            Some(desc) => {
                if self.description.is_some() {
                    let tag_text = match &tag {
                        Some(t) => t.tag.clone(),
                        None => String::new(),
                    };
                    return Err(
                        GlobalError::desc_already_specified(tag_text.as_str(), desc.as_str()),
                    );
                }
                if desc.as_str().is_empty() {
                    return Err(GlobalError::desc_not_specified());
                }
                self.description = Some(desc);
                self.tag = tag;
            },
            None => {
                let carries = match &self.description {
                    Some(d) => !d.as_str().is_empty(),
                    None => false,
                };
                if !carries {
                    return Err(GlobalError::desc_not_specified());
                }
            },
        }
        self.out = Some(time);
        Ok(())
    }

    /// The length of the activity in minutes, once it is closed.
    pub fn duration(&self) -> (r: Option<i32>)
        ensures
            r == match self.out {
                Some(o) => Some(
                    ((o.hours * 60 + o.minutes) - (self._in.hours * 60 + self._in.minutes)) as i32,
                ),
                None => None::<i32>,
            },
    {
        match self.out {
            Some(o) => Some(
                (o.hours as i32 * 60 + o.minutes as i32) - (self._in.hours as i32 * 60
                    + self._in.minutes as i32),
            ),
            None => None,
        }
    }

    /// A number that orders punches by date, then by the time they began,
    /// then by id.
    pub fn sort_order(&self) -> (r: u128)
        ensures
            r == pnch_order(self@),
    {
        let key = (self.date.year as u128 * 65536 + self.date.month as u128 * 256
            + self.date.day as u128) * 65536 + (self._in.hours as u128 * 256
            + self._in.minutes as u128);
        key * 4294967296 + self.id as u128
    }

    /// Encodes the punch in 92 bytes.
    pub fn to_bytes(&self) -> (r: Result<Vec<u8>, GlobalError>)
        ensures
            r is Ok <==> pnch_storable(self@),
            r matches Ok(b) ==> b@ == encode_pnch(self@),
            description_text(self@).contains('\0') ==> r == Err::<Vec<u8>, GlobalError>(
                GlobalError::NulInText,
            ),
            !description_text(self@).contains('\0') && encode_utf8(description_text(self@)).len()
                > DESCRIPTION_SIZE ==> r == Err::<Vec<u8>, GlobalError>(
                GlobalError::TextTooLong {
                    actual: encode_utf8(description_text(self@)).len() as usize,
                    max: DESCRIPTION_SIZE,
                },
            ),
    {
        let date = self.date.to_le_bytes();
        let time_in = self._in.to_le_bytes();
        let out = match self.out {
            Some(t) => t,
            None => Time::none(),
        }.to_le_bytes();
        let mut buffer: Vec<u8> = Vec::new();
        buffer.push(date[0]);
        buffer.push(date[1]);
        buffer.push(date[2]);
        buffer.push(date[3]);
        buffer.push(time_in[0]);
        buffer.push(time_in[1]);
        buffer.push(out[0]);
        buffer.push(out[1]);
        let tag_id = match &self.tag {
            Some(t) => t.id,
            None => NO_TAG_ID,
        };
        let mut id_bytes = u32_to_le_bytes(tag_id);
        buffer.append(&mut id_bytes);
        let ghost head = buffer@;
        let empty = String::new();
        let text = match &self.description {
            Some(d) => d.as_str(),
            None => empty.as_str(),
        };
        match push_text_field(&mut buffer, text, DESCRIPTION_SIZE) {
            Ok(()) => {},
            Err(e) => {
                proof {
                    if self.description is None {
                        vstd::utf8::encode_utf8_decode_utf8(text@);
                        assert(encode_utf8(text@) =~= Seq::<u8>::empty());
                    }
                }
                return Err(e);
            },
        }
        assert(buffer@ =~= encode_pnch(self@));
        Ok(buffer)
    }

    /// Decodes the punch that holds slot `id`, resolving its tag in `tags`.
    pub fn try_from_bytes(id: u32, chunk: &[u8], tags: &Tags) -> (r: Result<Self, GlobalError>)
        ensures
            chunk@.len() != PNCH_SIZE ==> r == Err::<Pnch, GlobalError>(
                GlobalError::WrongByteLen {
                    record: Record::Pnch,
                    actual: chunk@.len() as usize,
                    expected: PNCH_SIZE,
                },
            ),
            chunk@.len() == PNCH_SIZE ==> match decode_pnch(chunk@, id, tags@) {
                Some(v) => r matches Ok(p) && p@ == v,
                None => r == Err::<Pnch, GlobalError>(GlobalError::BadString),
            },
    {
        if chunk.len() != PNCH_SIZE {
            return Err(GlobalError::wrong_byte_len(Record::Pnch, chunk.len(), PNCH_SIZE));
        }
        let date = match Date::try_from_bytes(slice_subrange(chunk, 0, DATE_SIZE)) {
            Ok(d) => d,
            Err(e) => return Err(e),
        };
        let time_in = match Time::try_from_bytes(slice_subrange(chunk, 4, 6)) {
            Ok(t) => t,
            Err(e) => return Err(e),
        };
        let out = if chunk[6] == 0xFF && chunk[7] == 0xFF {
            None
        } else {
            match Time::try_from_bytes(slice_subrange(chunk, 6, 8)) {
                Ok(t) => Some(t),
                Err(e) => return Err(e),
            }
        };
        let tag_id = u32_from_le_bytes(slice_subrange(chunk, 8, 12));
        let tag = if tag_id == NO_TAG_ID {
            None
        } else {
            tags.get(tag_id)
        };
        let description = match read_text_field(slice_subrange(chunk, 12, PNCH_SIZE)) {
            Ok(text) => if text.as_str().is_empty() {
                None
            } else {
                Some(text)
            },
            Err(e) => return Err(e),
        };
        let r = Pnch { id, date, _in: time_in, out, tag, description };
        assert(r@.tag == resolve_tag(tags@, spec_u32_from_le_bytes(chunk@.subrange(8, 12))));
        Ok(r)
    }
}

/// The number by which punches are ordered: the date, then the time in.
pub open spec fn pnch_key(p: PnchView) -> int {
    p.date.rank() * 65536 + p.time_in.rank()
}

/// The number by which a store is sorted: the date, then the time in, then
/// the id.
pub open spec fn pnch_order(p: PnchView) -> int {
    pnch_key(p) * 4294967296 + p.id
}

/// A description as the user writes it: `tag/description`, or a description
/// alone where there is no `/`.
#[derive(Debug, Clone, PartialEq, Eq)]
pub struct Description {
    pub tag: Option<String>,
    pub description: String,
}

impl Description {
    /// Whether this is what `s` reads as: the text before the first `/` as
    /// tag and the rest as description, or all of `s` as description.
    pub open spec fn spec_read_from(self, s: Seq<char>) -> bool {
        match split_first(s, '/') {
            Some((t, d)) => self.tag matches Some(rt) && rt@ == t && self.description@ == d,
            None => self.tag is None && self.description@ == s,
        }
    }

    /// Splits `value` at its first `/` into a tag and a description; without
    /// a `/` all of it is the description.
    pub fn parse(value: &str) -> (r: Description)
        ensures
            r.spec_read_from(value@),
    {
        match split_once(value, '/') {
            Some((tag, description)) => Description {
                tag: Some(tag.to_owned()),
                description: description.to_owned(),
            },
            None => Description { tag: None, description: value.to_owned() },
        }
    }
}

impl std::str::FromStr for Description {
    type Err = GlobalError;

    fn from_str(value: &str) -> (r: Result<Self, GlobalError>)
        ensures
            r matches Ok(d) && d.spec_read_from(value@),
    {
        Ok(Description::parse(value))
    }
}

/// How a listing is printed.
#[derive(Debug, Clone, Copy, PartialEq, Eq, Structural)]
pub enum Format {
    Table,
    List,
    Csv,
}

/// What `str::to_lowercase` makes of a string.
pub uninterp spec fn lowercase_of(s: Seq<char>) -> Seq<char>;

/// Relies on `str::to_lowercase`: the result depends on the characters alone.
#[verifier::external_body]
fn lowercase(s: &str) -> (r: String)
    ensures
        r@ == lowercase_of(s@),
{
    s.to_lowercase()
}

impl Format {
    /// The format that a lowercased name stands for.
    pub open spec fn spec_named(lower: Seq<char>) -> Option<Format> {
        if lower == "table"@ {
            Some(Format::Table)
        } else if lower == "list"@ {
            Some(Format::List)
        } else if lower == "csv"@ {
            Some(Format::Csv)
        } else {
            None
        }
    }

    /// The format that a name already lowercased stands for.
    pub fn named(lower: &str) -> (r: Option<Format>)
        ensures
            r == Format::spec_named(lower@),
    {
        if crate::text::str_eq(lower, "table") {
            Some(Format::Table)
        } else if crate::text::str_eq(lower, "list") {
            Some(Format::List)
        } else if crate::text::str_eq(lower, "csv") {
            Some(Format::Csv)
        } else {
            None
        }
    }

    /// Reads a format name, in any case.
    pub fn parse(value: &str) -> (r: Result<Format, GlobalError>)
        ensures
            Format::spec_named(lowercase_of(value@)) matches Some(f) ==> r == Ok::<
                Format,
                GlobalError,
            >(f),
            Format::spec_named(lowercase_of(value@)) is None ==> (r matches Err(e)
                && crate::time::is_parse_error(e, crate::error::Syntax::Format, value@)),
    {
        let lower = lowercase(value);
        match Format::named(lower.as_str()) {
            Some(f) => Ok(f),
            None => Err(GlobalError::parse(crate::error::Syntax::Format, value)),
        }
    }
}

impl std::str::FromStr for Format {
    type Err = GlobalError;

    fn from_str(value: &str) -> (r: Result<Self, GlobalError>)
        ensures
            Format::spec_named(lowercase_of(value@)) matches Some(f) ==> r == Ok::<
                Format,
                GlobalError,
            >(f),
            Format::spec_named(lowercase_of(value@)) is None ==> (r matches Err(e)
                && crate::time::is_parse_error(e, crate::error::Syntax::Format, value@)),
    {
        Format::parse(value)
    }
}

/// The views of the punches of `s`.
pub open spec fn views(s: Seq<Pnch>) -> Seq<PnchView> {
    s.map_values(|p: Pnch| p@)
}

/// Whether the punches come in ascending order of date, then time in.
pub open spec fn chronological(s: Seq<PnchView>) -> bool {
    forall|i: int, j: int| 0 <= i < j < s.len() ==> pnch_key(s[i]) <= pnch_key(s[j])
}

/// The 92 bytes of the `i`-th record of a punch store.
pub open spec fn pnch_chunk(b: Seq<u8>, i: int) -> Seq<u8> {
    b.subrange(i * 92, i * 92 + 92)
}

/// Whether every record of a punch store decodes.
pub open spec fn pnchs_decodable(b: Seq<u8>, tags: Seq<TagView>) -> bool {
    forall|i: int|
        0 <= i < b.len() / 92 ==> (#[trigger] decode_pnch(pnch_chunk(b, i), i as u32, tags)) is Some
}

/// The punches that the records of a punch store decode to, in file order,
/// each with its slot as id.
pub open spec fn decode_pnchs(b: Seq<u8>, tags: Seq<TagView>) -> Seq<PnchView> {
    Seq::new((b.len() / 92) as nat, |i: int| decode_pnch(pnch_chunk(b, i), i as u32, tags)->0)
}

/// The encoding of a punch store: its punches' records in order.
pub open spec fn encode_pnchs(s: Seq<PnchView>) -> Seq<u8>
    decreases s.len(),
{
    if s.len() == 0 {
        Seq::empty()
    } else {
        encode_pnchs(s.drop_last()) + encode_pnch(s.last())
    }
}

/// Whether the punches come in ascending order of date, time in, and id.
pub open spec fn in_order(s: Seq<PnchView>) -> bool {
    forall|i: int, j: int| 0 <= i < j < s.len() ==> pnch_order(s[i]) <= pnch_order(s[j])
}

proof fn lemma_in_order_chronological(s: Seq<PnchView>)
    requires
        in_order(s),
    ensures
        chronological(s),
{
    assert forall|i: int, j: int| 0 <= i < j < s.len() implies pnch_key(s[i]) <= pnch_key(
        s[j],
    ) by {
        let (a, b) = (pnch_key(s[i]), pnch_key(s[j]));
        let (x, y) = (s[i].id as int, s[j].id as int);
        assert(a * 4294967296 + x <= b * 4294967296 + y);
        assert(a <= b) by (nonlinear_arith)
            requires
                a * 4294967296 + x <= b * 4294967296 + y,
                0 <= x < 4294967296,
                0 <= y < 4294967296,
        ;
    }
}

/// A punch without its slot id: what its record holds wherever it stands.
pub open spec fn unslotted(p: PnchView) -> PnchView {
    PnchView { id: 0, ..p }
}

/// The punches of `s` without their slot ids.
pub open spec fn unslotted_all(s: Seq<PnchView>) -> Seq<PnchView> {
    s.map_values(|p: PnchView| unslotted(p))
}

/// Whether no two different punches of `m` share a date and a time in.
pub open spec fn keys_determine(m: Multiset<PnchView>) -> bool {
    forall|x: PnchView, y: PnchView|
        m.count(x) > 0 && m.count(y) > 0 && pnch_key(x) == pnch_key(y) ==> x == y
}

proof fn lemma_unslotted_multiset(a: Seq<PnchView>, b: Seq<PnchView>)
    requires
        a.to_multiset() == b.to_multiset(),
    ensures
        unslotted_all(a).to_multiset() == unslotted_all(b).to_multiset(),
    decreases a.len(),
{
    broadcast use vstd::seq_lib::group_to_multiset_ensures;
    broadcast use vstd::multiset::group_multiset_axioms;

    vstd::seq_lib::to_multiset_len(a);
    vstd::seq_lib::to_multiset_len(b);
    if a.len() == 0 {
        assert(b.len() == 0);
        assert(unslotted_all(a) =~= unslotted_all(b));
    } else {
        let x = a[0];
        assert(a.to_multiset().count(x) > 0) by {
            assert(a.contains(x));
        }
        let j = choose|j: int| 0 <= j < b.len() && b[j] == x;
        let a1 = a.drop_first();
        let b1 = b.remove(j);
        assert(a1 =~= a.remove(0));
        vstd::seq_lib::to_multiset_remove(a, 0);
        vstd::seq_lib::to_multiset_remove(b, j);
        lemma_unslotted_multiset(a1, b1);
        assert(unslotted_all(a) =~= unslotted_all(a1).insert(0, unslotted(x)));
        assert(unslotted_all(b) =~= unslotted_all(b1).insert(j, unslotted(x)));
        vstd::seq_lib::to_multiset_insert(unslotted_all(a1), 0, unslotted(x));
        vstd::seq_lib::to_multiset_insert(unslotted_all(b1), j, unslotted(x));
    }
}

proof fn lemma_sorted_unique(a: Seq<PnchView>, b: Seq<PnchView>)
    requires
        chronological(a),
        chronological(b),
        a.to_multiset() == b.to_multiset(),
        keys_determine(a.to_multiset()),
    ensures
        a == b,
    decreases a.len(),
{
    broadcast use vstd::seq_lib::group_to_multiset_ensures;
    broadcast use vstd::multiset::group_multiset_axioms;

    vstd::seq_lib::to_multiset_len(a);
    vstd::seq_lib::to_multiset_len(b);
    if a.len() == 0 {
        assert(b.len() == 0);
        assert(a =~= b);
    } else {
        assert(b.len() == a.len());
        let x = a[0];
        let y = b[0];
        assert(a.contains(x));
        assert(b.to_multiset().count(x) > 0);
        let j = choose|j: int| 0 <= j < b.len() && b[j] == x;
        assert(pnch_key(y) <= pnch_key(x)) by {
            if j > 0 {
                assert(pnch_key(b[0]) <= pnch_key(b[j]));
            }
        }
        assert(b.contains(y));
        assert(a.to_multiset().count(y) > 0);
        let i = choose|i: int| 0 <= i < a.len() && a[i] == y;
        assert(pnch_key(x) <= pnch_key(y)) by {
            if i > 0 {
                assert(pnch_key(a[0]) <= pnch_key(a[i]));
            }
        }
        assert(x == y);
        let a1 = a.drop_first();
        let b1 = b.drop_first();
        assert(a1 =~= a.remove(0));
        assert(b1 =~= b.remove(0));
        vstd::seq_lib::to_multiset_remove(a, 0);
        vstd::seq_lib::to_multiset_remove(b, 0);
        assert(keys_determine(a1.to_multiset())) by {
            assert forall|p: PnchView, q: PnchView|
                a1.to_multiset().count(p) > 0 && a1.to_multiset().count(q) > 0 && pnch_key(p)
                    == pnch_key(q) implies p == q by {
                assert(a.to_multiset().count(p) > 0);
                assert(a.to_multiset().count(q) > 0);
            }
        }
        assert(chronological(a1)) by {
            assert forall|k: int, l: int| 0 <= k < l < a1.len() implies pnch_key(a1[k])
                <= pnch_key(a1[l]) by {
                assert(a1[k] == a[k + 1] && a1[l] == a[l + 1]);
            }
        }
        assert(chronological(b1)) by {
            assert forall|k: int, l: int| 0 <= k < l < b1.len() implies pnch_key(b1[k])
                <= pnch_key(b1[l]) by {
                assert(b1[k] == b[k + 1] && b1[l] == b[l + 1]);
            }
        }
        lemma_sorted_unique(a1, b1);
        assert(a =~= b) by {
            assert forall|k: int| 0 <= k < a.len() implies a[k] == b[k] by {
                if k > 0 {
                    assert(a[k] == a1[k - 1] && b[k] == b1[k - 1]);
                }
            }
        }
    }
}

proof fn lemma_unslotted_chronological(s: Seq<PnchView>)
    requires
        chronological(s),
    ensures
        chronological(unslotted_all(s)),
{
    let u = unslotted_all(s);
    assert forall|i: int, j: int| 0 <= i < j < u.len() implies pnch_key(u[i]) <= pnch_key(u[j]) by {
        assert(u[i] == unslotted(s[i]) && u[j] == unslotted(s[j]));
    }
}

/// The order of the records on disk does not change what a load gives: two
/// stores that hold the same records (slot ids aside) in any two orders load
/// to the same punches, position by position (slot ids aside), where no two
/// different records share a date and a time in. `r1` and `r2` are loads of
/// `b1` and `b2`, as `Pnchs::load` states them.
pub proof fn lemma_load_ignores_file_order(
    b1: Seq<u8>,
    b2: Seq<u8>,
    tags: Seq<TagView>,
    r1: Seq<PnchView>,
    r2: Seq<PnchView>,
)
    requires
        unslotted_all(decode_pnchs(b1, tags)).to_multiset() == unslotted_all(
            decode_pnchs(b2, tags),
        ).to_multiset(),
        keys_determine(unslotted_all(decode_pnchs(b1, tags)).to_multiset()),
        chronological(r1),
        r1.to_multiset() == decode_pnchs(b1, tags).to_multiset(),
        chronological(r2),
        r2.to_multiset() == decode_pnchs(b2, tags).to_multiset(),
    ensures
        unslotted_all(r1) == unslotted_all(r2),
{
    lemma_unslotted_multiset(r1, decode_pnchs(b1, tags));
    lemma_unslotted_multiset(r2, decode_pnchs(b2, tags));
    lemma_unslotted_chronological(r1);
    lemma_unslotted_chronological(r2);
    lemma_sorted_unique(unslotted_all(r1), unslotted_all(r2));
}

/// Whether every punch but the last is closed.
pub open spec fn open_only_last(s: Seq<PnchView>) -> bool {
    forall|i: int| 0 <= i < s.len() - 1 ==> (#[trigger] s[i]).out is Some
}

/// Punching in keeps at most one punch open, the last: it appends only where
/// the last punch is closed.
pub proof fn lemma_punch_in_keeps_one_open(s: Seq<PnchView>, p: PnchView)
    requires
        open_only_last(s),
        !(s.len() > 0 && s.last().out is None),
    ensures
        open_only_last(s.push(p)),
{
    assert forall|i: int| 0 <= i < s.push(p).len() - 1 implies (#[trigger] s.push(p)[i]).out is Some by {
        assert(s.push(p)[i] == s[i]);
    }
}

/// Closing the last punch leaves no punch open.
pub proof fn lemma_punch_out_closes_all(s: Seq<PnchView>, closed: PnchView)
    requires
        open_only_last(s),
        s.len() > 0,
        closed.out is Some,
    ensures
        forall|i: int|
            0 <= i < s.len() ==> (#[trigger] s.update(s.len() - 1, closed)[i]).out is Some,
{
}

/// Sorts punches by date, then time in, then id.
fn sort_in_order(v: Vec<Pnch>) -> (r: Vec<Pnch>)
    ensures
        in_order(views(r@)),
        views(r@).to_multiset() == views(v@).to_multiset(),
{
    broadcast use vstd::seq_lib::group_to_multiset_ensures;
    broadcast use vstd::multiset::group_multiset_axioms;

    let mut rest = v;
    let mut out: Vec<Pnch> = Vec::new();
    assert(views(out@) =~= Seq::<PnchView>::empty());
    while rest.len() > 0
        invariant
            in_order(views(out@)),
            views(out@).to_multiset().add(views(rest@).to_multiset()) == views(v@).to_multiset(),
        decreases rest.len(),
    {
        let ghost before_rest = rest@;
        let p = rest.remove(0);
        assert(views(rest@) =~= views(before_rest).remove(0));
        proof {
            vstd::seq_lib::to_multiset_remove(views(before_rest), 0);
            assert(views(before_rest)[0] == p@);
            vstd::seq_lib::to_multiset_contains(views(before_rest), p@);
        }
        let ghost out_ms = views(out@).to_multiset();
        let ghost rest_ms = views(before_rest).to_multiset();
        let k = p.sort_order();
        let mut j: usize = out.len();
        while j > 0 && out[j - 1].sort_order() > k
            invariant
                j <= out@.len(),
                forall|m: int| j <= m < out@.len() ==> pnch_order(#[trigger] out@[m]@) > k,
            decreases j,
        {
            j = j - 1;
        }
        let ghost before_out = out@;
        out.insert(j, p);
        assert(views(out@) =~= views(before_out).insert(j as int, p@));
        proof {
            vstd::seq_lib::to_multiset_insert(views(before_out), j as int, p@);
            assert(rest_ms.count(p@) > 0);
            assert(out_ms.insert(p@).add(rest_ms.remove(p@)) =~= out_ms.add(rest_ms));
            let s = views(out@);
            assert forall|a: int, b: int| 0 <= a < b < s.len() implies pnch_order(s[a]) <= pnch_order(
                s[b],
            ) by {
                let o = views(before_out);
                if b < j {
                    assert(s[a] == o[a] && s[b] == o[b]);
                } else if b == j {
                    assert(s[b] == p@);
                    assert(s[a] == o[a]);
                    if j > 0 {
                        assert(pnch_order(o[j - 1]) <= k);
                        assert(pnch_order(o[a]) <= pnch_order(o[j - 1]));
                    }
                } else if a == j {
                    assert(s[b] == o[b - 1]);
                    assert(pnch_order(before_out[b - 1]@) > k);
                } else if a < j {
                    assert(s[a] == o[a] && s[b] == o[b - 1]);
                } else {
                    assert(s[a] == o[a - 1] && s[b] == o[b - 1]);
                }
            }
        }
    }
    assert(views(rest@) =~= Seq::<PnchView>::empty());
    out
}

/// The punches of a run, in memory.
#[derive(Debug, Clone, PartialEq, Eq)]
pub struct Pnchs(pub Vec<Pnch>);

impl View for Pnchs {
    type V = Seq<PnchView>;

    open spec fn view(&self) -> Seq<PnchView> {
        views(self.0@)
    }
}

impl Pnchs {
    /// Decodes a store from its 92-byte records, gives each punch its slot as
    /// id, resolves tags in `tags`, then sorts by date and time in; punches
    /// that share both keep the order of their records. A trailing partial
    /// record is a wrong byte length.
    pub fn load(buffer: &[u8], tags: &Tags) -> (r: Result<Self, GlobalError>)
        ensures
            buffer@.len() % 92 != 0 ==> r == Err::<Pnchs, GlobalError>(
                GlobalError::WrongByteLen {
                    record: Record::Pnch,
                    actual: (buffer@.len() % 92) as usize,
                    expected: PNCH_SIZE,
                },
            ),
            buffer@.len() % 92 == 0 && pnchs_decodable(buffer@, tags@) ==> (r matches Ok(p)
                && chronological(p@) && in_order(p@) && p@.to_multiset() == decode_pnchs(
                buffer@,
                tags@,
            ).to_multiset()),
            buffer@.len() % 92 == 0 && !pnchs_decodable(buffer@, tags@) ==> r == Err::<
                Pnchs,
                GlobalError,
            >(GlobalError::BadString),
    {
        let len = buffer.len();
        if len % PNCH_SIZE != 0 {
            return Err(GlobalError::wrong_byte_len(Record::Pnch, len % PNCH_SIZE, PNCH_SIZE));
        }
        let n = len / PNCH_SIZE;
        let mut pnchs: Vec<Pnch> = Vec::new();
        let mut i: usize = 0;
        while i < n
            invariant
                len == buffer@.len(),
                len % 92 == 0,
                n == len / 92,
                i <= n,
                pnchs@.len() == i,
                forall|j: int|
                    0 <= j < i ==> (#[trigger] decode_pnch(pnch_chunk(buffer@, j), j as u32, tags@))
                        is Some,
                forall|j: int|
                    0 <= j < i ==> Some((#[trigger] pnchs@[j])@) == decode_pnch(
                        pnch_chunk(buffer@, j),
                        j as u32,
                        tags@,
                    ),
            decreases n - i,
        {
            let start = i * PNCH_SIZE;
            let chunk = slice_subrange(buffer, start, start + PNCH_SIZE);
            assert(chunk@ =~= pnch_chunk(buffer@, i as int));
            match Pnch::try_from_bytes(i as u32, chunk, tags) {
                Ok(p) => pnchs.push(p),
                Err(e) => {
                    return Err(e);
                },
            }
            i = i + 1;
        }
        assert(views(pnchs@) =~= decode_pnchs(buffer@, tags@));
        let sorted = sort_in_order(pnchs);
        proof {
            lemma_in_order_chronological(views(sorted@));
        }
        Ok(Pnchs(sorted))
    }

    /// Appends an open punch, unless the last punch is still open.
    pub fn _in(&mut self, pnch: Pnch) -> (r: Result<(), GlobalError>)
        ensures
            old(self)@.len() > 0 && old(self)@.last().out is None ==> r == Err::<(), GlobalError>(
                GlobalError::PnchAlreadyOpen,
            ) && final(self)@ == old(self)@,
            !(old(self)@.len() > 0 && old(self)@.last().out is None) ==> r is Ok && final(self)@
                == old(self)@.push(pnch@),
    {
        let n = self.0.len();
        if n > 0 && self.0[n - 1].out.is_none() {
            return Err(GlobalError::pnch_already_open());
        }
        self.0.push(pnch);
        assert(self@ =~= old(self)@.push(pnch@));
        Ok(())
    }

    /// The first punch whose id is `id`.
    pub fn get(&mut self, id: u32) -> (r: Option<&mut Pnch>)
        ensures
            find_id(old(self)@, id) is None ==> r is None && final(self)@ == old(self)@,
            find_id(old(self)@, id) matches Some(i) ==> (r matches Some(p) && *p == old(self).0@[i]
                && final(self).0@ == old(self).0@.update(i, *final(p))),
    {
        let mut i: usize = 0;
        while i < self.0.len()
            invariant
                *self == *old(self),
                i <= self.0@.len(),
                find_id(self@.subrange(0, i as int), id) is None,
            decreases self.0@.len() - i,
        {
            assert(self@.subrange(0, i + 1).drop_last() =~= self@.subrange(0, i as int));
            if self.0[i].id == id {
                proof {
                    lemma_find_id_prefix(self@, id, i + 1);
                }
                return Some(&mut self.0[i]);
            }
            i = i + 1;
        }
        assert(self@.subrange(0, i as int) =~= self@);
        None
    }

    /// The last punch.
    pub fn get_last(&mut self) -> (r: Option<&mut Pnch>)
        ensures
            old(self).0@.len() == 0 ==> r is None && final(self)@ == old(self)@,
            old(self).0@.len() > 0 ==> (r matches Some(p) && *p == old(self).0@.last()
                && final(self).0@ == old(self).0@.update(old(self).0@.len() - 1, *final(p))),
    {
        let n = self.0.len();
        if n == 0 {
            None
        } else {
            Some(&mut self.0[n - 1])
        }
    }

    /// The total length in minutes of the closed punches.
    pub fn duration(&self) -> (r: i128)
        ensures
            r == total_minutes(self@),
    {
        let mut total: i128 = 0;
        let mut i: usize = 0;
        while i < self.0.len()
            invariant
                i <= self@.len(),
                self@.len() == self.0@.len(),
                total == total_minutes(self@.subrange(0, i as int)),
            decreases self@.len() - i,
        {
            assert(self@.subrange(0, i + 1).drop_last() =~= self@.subrange(0, i as int));
            assert(self@[i as int] == self.0@[i as int]@);
            proof {
                lemma_total_minutes_bound(self@.subrange(0, i as int));
            }
            match self.0[i].duration() {
                Some(d) => total = total + d as i128,
                None => {},
            }
            i = i + 1;
        }
        assert(self@.subrange(0, i as int) =~= self@);
        total
    }

    /// The punches, to be shown as a table.
    pub fn into_table(self) -> (r: PnchsTable)
        ensures
            r.0@ == self@,
    {
        PnchsTable(self)
    }

    /// The punches as CSV, one `tag,description,date,in,out` line each.
    pub fn into_csv(self) -> (r: Result<String, GlobalError>)
        ensures
            r matches Ok(text) && text@ == csv_text(self@),
    {
        let mut text = String::new();
        let mut i: usize = 0;
        while i < self.0.len()
            invariant
                i <= self@.len(),
                self@.len() == self.0@.len(),
                text@ == csv_text(self@.subrange(0, i as int)),
            decreases self@.len() - i,
        {
            let ghost before = text@;
            assert(self@[i as int] == self.0@[i as int]@);
            push_csv_line(&self.0[i], &mut text);
            assert(self@.subrange(0, i + 1).drop_last() =~= self@.subrange(0, i as int));
            i = i + 1;
        }
        assert(self@.subrange(0, i as int) =~= self@);
        Ok(text)
    }

    /// Encodes every punch, in the order in which they stand.
    pub fn save(&self) -> (r: Result<Vec<u8>, GlobalError>)
        ensures
            r is Ok <==> forall|j: int| 0 <= j < self@.len() ==> pnch_storable(#[trigger] self@[j]),
            r matches Ok(b) ==> b@ == encode_pnchs(self@),
            r matches Err(e) ==> e == GlobalError::NulInText || e is TextTooLong,
    {
        let mut content: Vec<u8> = Vec::new();
        let mut i: usize = 0;
        while i < self.0.len()
            invariant
                i <= self@.len(),
                self@.len() == self.0@.len(),
                forall|j: int| 0 <= j < i ==> pnch_storable(#[trigger] self@[j]),
                content@ == encode_pnchs(self@.subrange(0, i as int)),
            decreases self@.len() - i,
        {
            assert(self@[i as int] == self.0@[i as int]@);
            match self.0[i].to_bytes() {
                Ok(bytes) => {
                    assert(self@.subrange(0, i + 1).drop_last() =~= self@.subrange(0, i as int));
                    content.append(&mut bytes.clone());
                },
                Err(e) => {
                    return Err(e);
                },
            }
            i = i + 1;
        }
        assert(self@.subrange(0, i as int) =~= self@);
        Ok(content)
    }
}

/// The length in minutes of a closed punch; zero for an open one.
pub open spec fn minutes_of(p: PnchView) -> int {
    match p.out {
        Some(o) => (o.hours * 60 + o.minutes) - (p.time_in.hours * 60 + p.time_in.minutes),
        None => 0,
    }
}

/// The total length in minutes of the closed punches of `s`.
pub open spec fn total_minutes(s: Seq<PnchView>) -> int
    decreases s.len(),
{
    if s.len() == 0 {
        0
    } else {
        total_minutes(s.drop_last()) + minutes_of(s.last())
    }
}

proof fn lemma_total_minutes_bound(s: Seq<PnchView>)
    ensures
        -15555 * s.len() <= total_minutes(s) <= 15555 * s.len(),
    decreases s.len(),
{
    if s.len() > 0 {
        lemma_total_minutes_bound(s.drop_last());
    }
}

/// `text` followed by the CSV line of a punch: `tag,description,date,in,out`,
/// with empty fields for what is absent.
pub open spec fn with_csv_line(text: Seq<char>, p: PnchView) -> Seq<char> {
    let tag = match p.tag {
        Some(t) => t.text,
        None => Seq::empty(),
    };
    let description = description_text(p);
    let out = match p.out {
        Some(o) => o.spec_text(),
        None => Seq::empty(),
    };
    text + tag + ","@ + description + ","@ + p.date.spec_text() + ","@ + p.time_in.spec_text()
        + ","@ + out + "\n"@
}

/// Appends the CSV line of a punch.
fn push_csv_line(p: &Pnch, text: &mut String)
    ensures
        final(text)@ == with_csv_line(old(text)@, p@),
{
    match &p.tag {
        Some(t) => text.append(t.tag.as_str()),
        None => {},
    }
    text.append(",");
    match &p.description {
        Some(d) => text.append(d.as_str()),
        None => {},
    }
    text.append(",");
    p.date.push_text(text);
    text.append(",");
    p._in.push_text(text);
    text.append(",");
    match &p.out {
        Some(o) => o.push_text(text),
        None => {},
    }
    text.append("\n");
}

/// The CSV lines of the punches, in order.
pub open spec fn csv_text(s: Seq<PnchView>) -> Seq<char>
    decreases s.len(),
{
    if s.len() == 0 {
        Seq::empty()
    } else {
        with_csv_line(csv_text(s.drop_last()), s.last())
    }
}

/// Punches that are to be shown as a table.
#[derive(Debug, Clone, PartialEq, Eq)]
pub struct PnchsTable(pub Pnchs);

/// The position of the first punch whose id is `id`.
pub open spec fn find_id(s: Seq<PnchView>, id: u32) -> Option<int>
    decreases s.len(),
{
    if s.len() == 0 {
        None
    } else {
        match find_id(s.drop_last(), id) {
            Some(i) => Some(i),
            None => if s.last().id == id {
                Some(s.len() - 1)
            } else {
                None
            },
        }
    }
}

pub proof fn lemma_find_id_bounds(s: Seq<PnchView>, id: u32)
    ensures
        find_id(s, id) matches Some(i) ==> 0 <= i < s.len() && s[i].id == id,
    decreases s.len(),
{
    if s.len() > 0 {
        lemma_find_id_bounds(s.drop_last(), id);
    }
}

proof fn lemma_find_id_prefix(s: Seq<PnchView>, id: u32, k: int)
    requires
        0 <= k <= s.len(),
        find_id(s.subrange(0, k), id) is Some,
    ensures
        find_id(s, id) == find_id(s.subrange(0, k), id),
    decreases s.len() - k,
{
    if k < s.len() {
        assert(s.subrange(0, k + 1).drop_last() =~= s.subrange(0, k));
        lemma_find_id_prefix(s, id, k + 1);
    } else {
        assert(s.subrange(0, k) =~= s);
    }
}

} // verus!
