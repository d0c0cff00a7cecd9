//! What is used of other crates: byte buffers, base64, random numbers, and the reading of MP4
//! boxes, of datagrams and of parameters, and the writing of namespaces.
//!
//! Nothing here is proved. Each item says what it takes for granted of the function that it names.
use crate::boxes;
use crate::location::Location;
use crate::message::{FilterType, GroupOrder, MessageParameter};
use crate::names;
use moqtail::model::common::pair::KeyValuePair as WirePair;
use moqtail::model::common::tuple::{Tuple, TupleField};
use moqtail::model::control::constant::{FilterType as WireFilter, GroupOrder as WireOrder};
use moqtail::model::data::datagram::Datagram;
use moqtail::model::parameter::message_parameter::MessageParameter as WireParameter;
use moqtail::model::parameter::setup_parameter::SetupParameter as WireSetup;
use mp4::{MoofBox, MoovBox, ReadBox};
use std::io::Cursor;
use vstd::prelude::*;

verus! {

/// A growing byte buffer, `bytes::BytesMut`.
#[verifier::external_type_specification]
#[verifier::external_body]
pub struct ExBytesMut(bytes::BytesMut);

/// Bytes that can be shared, `bytes::Bytes`.
#[verifier::external_type_specification]
#[verifier::external_body]
pub struct ExBytes(bytes::Bytes);

/// The bytes that a buffer holds.
pub uninterp spec fn buffered(b: bytes::BytesMut) -> Seq<u8>;

/// The bytes that shared bytes hold.
pub uninterp spec fn shared(b: bytes::Bytes) -> Seq<u8>;

/// `BytesMut::new` gives a buffer that holds nothing.
pub assume_specification[ bytes::BytesMut::new ]() -> (b: bytes::BytesMut)
    ensures
        buffered(b) == Seq::<u8>::empty(),
;

/// `BytesMut::extend_from_slice` puts bytes behind those that the buffer holds. The sum must be one
/// that memory can hold.
pub assume_specification[ bytes::BytesMut::extend_from_slice ](
    b: &mut bytes::BytesMut,
    extend: &[u8],
)
    requires
        buffered(*old(b)).len() + extend@.len() <= isize::MAX,
    ensures
        buffered(*final(b)) == buffered(*old(b)) + extend@,
;

/// `BytesMut::split_to` takes the first `at` bytes out and hands them back; the buffer keeps the
/// others. It must hold that many.
pub assume_specification[ bytes::BytesMut::split_to ](
    b: &mut bytes::BytesMut,
    at: usize,
) -> (r: bytes::BytesMut)
    requires
        at <= buffered(*old(b)).len(),
    ensures
        buffered(r) == buffered(*old(b)).take(at as int),
        buffered(*final(b)) == buffered(*old(b)).skip(at as int),
;

/// `BytesMut::freeze` keeps the bytes.
pub assume_specification[ bytes::BytesMut::freeze ](b: bytes::BytesMut) -> (r: bytes::Bytes)
    ensures
        shared(r) == buffered(b),
;

/// `Bytes::new` holds nothing.
pub assume_specification[ bytes::Bytes::new ]() -> (b: bytes::Bytes)
    ensures
        shared(b) == Seq::<u8>::empty(),
;

/// The bytes of a buffer as a slice, by the `AsRef` of `BytesMut`.
#[verifier::external_body]
pub(crate) fn buffer_slice(b: &bytes::BytesMut) -> (r: &[u8])
    ensures
        r@ == buffered(*b),
{
    b.as_ref()
}

/// Shared bytes as a slice, by the `AsRef` of `Bytes`.
#[verifier::external_body]
pub(crate) fn shared_slice(b: &bytes::Bytes) -> (r: &[u8])
    ensures
        r@ == shared(*b),
{
    b.as_ref()
}

/// A character of base64, by its value.
pub open spec fn base64_char(n: int) -> char {
    "ABCDEFGHIJKLMNOPQRSTUVWXYZabcdefghijklmnopqrstuvwxyz0123456789+/"@[n]
}

/// Bytes in base64: each three bytes give four characters, and a last one or two give two or
/// three, filled up with `=`.
pub open spec fn base64_of(s: Seq<u8>) -> Seq<char>
    decreases s.len(),
{
    if s.len() == 0 {
        Seq::empty()
    } else if s.len() == 1 {
        seq![base64_char((s[0] / 4) as int), base64_char(s[0] % 4 * 16), '=', '=']
    } else if s.len() == 2 {
        seq![
            base64_char((s[0] / 4) as int),
            base64_char(s[0] % 4 * 16 + s[1] / 16),
            base64_char(s[1] % 16 * 4),
            '=',
        ]
    } else {
        seq![
            base64_char((s[0] / 4) as int),
            base64_char(s[0] % 4 * 16 + s[1] / 16),
            base64_char(s[1] % 16 * 4 + s[2] / 64),
            base64_char((s[2] % 64) as int),
        ] + base64_of(s.skip(3))
    }
}

/// The standard engine of the `base64` crate, `general_purpose::STANDARD.encode`, writes bytes with
/// the standard alphabet and padding. The text must be one that memory can hold.
#[verifier::external_body]
pub(crate) fn encode_base64(data: &[u8]) -> (r: String)
    requires
        data@.len() <= isize::MAX / 2,
    ensures
        r@ == base64_of(data@),
{
    base64::Engine::encode(&base64::engine::general_purpose::STANDARD, data)
}

/// `rand::random` gives any number.
#[verifier::external_body]
pub(crate) fn random_u64() -> (n: u64) {
    rand::random::<u64>()
}

/// What is read of a run of samples.
#[derive(Debug)]
pub struct SampleRun {
    pub sample_count: u32,
    pub first_sample_flags: Option<u32>,
    pub sample_flags: Vec<u32>,
}

/// What is read of a track fragment.
#[derive(Debug)]
pub struct TrackFragment {
    pub track_id: u32,
    pub default_sample_flags: Option<u32>,
    pub run: Option<SampleRun>,
}

#[verifier::ext_equal]
pub struct SampleRunView {
    pub sample_count: u32,
    pub first_sample_flags: Option<u32>,
    pub sample_flags: Seq<u32>,
}

#[verifier::ext_equal]
pub struct TrackFragmentView {
    pub track_id: u32,
    pub default_sample_flags: Option<u32>,
    pub run: Option<SampleRunView>,
}

impl View for TrackFragment {
    type V = TrackFragmentView;

    open spec fn view(&self) -> TrackFragmentView {
        TrackFragmentView {
            track_id: self.track_id,
            default_sample_flags: self.default_sample_flags,
            run: match self.run {
                Some(r) => Some(
                    SampleRunView {
                        sample_count: r.sample_count,
                        first_sample_flags: r.first_sample_flags,
                        sample_flags: r.sample_flags@,
                    },
                ),
                None => None,
            },
        }
    }
}

/// What some track fragments say.
pub open spec fn fragments_view(v: Seq<TrackFragment>) -> Seq<TrackFragmentView> {
    v.map_values(|t: TrackFragment| t@)
}

/// The track fragments that the reader finds in a movie fragment box; `None` if it finds fault with
/// the box.
pub uninterp spec fn moof_fragments(data: Seq<u8>) -> Option<Seq<TrackFragmentView>>;

/// `mp4::MoofBox::read_box`, applied behind the eight bytes of the header: what it reads is a
/// matter of the bytes alone. It comes to an end on boxes that [`boxes::moof_ok`] admits. What it
/// reads of given bytes is left unsaid.
#[verifier::external_body]
pub(crate) fn read_moof(data: &[u8]) -> (r: Option<Vec<TrackFragment>>)
    requires
        data@.len() >= 8,
        boxes::moof_ok(data@),
    ensures
        match r {
            Some(v) => moof_fragments(data@) == Some(fragments_view(v@)),
            None => moof_fragments(data@) is None,
        },
{
    let mut cursor = Cursor::new(data);
    cursor.set_position(8);
    let moof = MoofBox::read_box(&mut cursor, data.len() as u64 - 8).ok()?;
    let fragments = moof.trafs.into_iter().map(|t| TrackFragment {
        track_id: t.tfhd.track_id,
        default_sample_flags: t.tfhd.default_sample_flags,
        run: t.trun.map(|r| SampleRun {
            sample_count: r.sample_count,
            first_sample_flags: r.first_sample_flags,
            sample_flags: r.sample_flags,
        }),
    });
    Some(fragments.collect())
}

/// The profile, compatibility and level that AVC is coded with.
#[derive(Debug, Clone, Copy, PartialEq, Eq, Structural)]
pub struct AvcProfile {
    pub profile: u8,
    pub compatibility: u8,
    pub level: u8,
}

/// What is read of a track of a movie: its handler, and which sample descriptions it has.
#[derive(Debug, Clone, Copy, PartialEq, Eq, Structural)]
pub struct MovieTrack {
    pub track_id: u32,
    /// The four characters of the handler's type, the first the highest.
    pub handler: u32,
    pub avc1: Option<AvcProfile>,
    pub hev1: bool,
    pub vp09: bool,
    pub mp4a: bool,
    pub tx3g: bool,
}

/// The tracks that the reader finds in a movie box; `None` if it finds fault with the box.
pub uninterp spec fn moov_tracks(data: Seq<u8>) -> Option<Seq<MovieTrack>>;

/// `mp4::MoovBox::read_box`, applied behind the eight bytes of the header: what it reads is a
/// matter of the bytes alone. It comes to an end on boxes that [`boxes::moov_ok`] admits. What it
/// reads of given bytes is left unsaid.
#[verifier::external_body]
pub(crate) fn read_moov(data: &[u8]) -> (r: Option<Vec<MovieTrack>>)
    requires
        data@.len() >= 8,
        boxes::moov_ok(data@),
    ensures
        match r {
            Some(v) => moov_tracks(data@) == Some(v@),
            None => moov_tracks(data@) is None,
        },
{
    let mut cursor = Cursor::new(data);
    cursor.set_position(8);
    let moov = MoovBox::read_box(&mut cursor, data.len() as u64 - 8).ok()?;
    Some(moov.traks.into_iter().map(|t| {
        let d = t.mdia.minf.stbl.stsd;
        MovieTrack {
            track_id: t.tkhd.track_id,
            handler: u32::from_be_bytes(t.mdia.hdlr.handler_type.value),
            avc1: d.avc1.map(|a| AvcProfile {
                profile: a.avcc.avc_profile_indication,
                compatibility: a.avcc.profile_compatibility,
                level: a.avcc.avc_level_indication,
            }),
            hev1: d.hev1.is_some(), vp09: d.vp09.is_some(), mp4a: d.mp4a.is_some(), tx3g: d.tx3g.is_some(),
        }}).collect())
}

/// What is read of a datagram: where its object belongs, and the publisher's priority if the
/// datagram carries one.
#[derive(Debug, Clone, Copy, PartialEq, Eq, Structural)]
pub struct DatagramFields {
    pub track_alias: u64,
    pub group_id: u64,
    pub object_id: u64,
    pub publisher_priority: Option<u8>,
}

/// The fields that the reader finds in a datagram; `None` if it finds fault with the bytes.
pub uninterp spec fn datagram_fields(payload: Seq<u8>) -> Option<DatagramFields>;

/// `moqtail`'s `Datagram::deserialize`: what it reads is a matter of the bytes alone. What it reads
/// of given bytes is left unsaid.
#[verifier::external_body]
pub(crate) fn read_datagram(payload: &[u8]) -> (r: Option<DatagramFields>)
    ensures
        r == datagram_fields(payload@),
{
    let d = Datagram::deserialize(&mut bytes::Bytes::copy_from_slice(payload)).ok()?;
    Some(DatagramFields {
        track_alias: d.track_alias,
        group_id: d.group_id,
        object_id: d.object_id,
        publisher_priority: d.publisher_priority,
    })
}

/// The parameter that a type with a number is; `None` if it is none.
pub open spec fn number_parameter(type_value: u64, value: u64) -> Option<MessageParameter> {
    if type_value == 0x02 && value > 0 {
        Some(MessageParameter::DeliveryTimeout { timeout: value })
    } else if type_value == 0x08 {
        Some(MessageParameter::Expires { expires: value })
    } else if type_value == 0x10 && value <= 1 {
        Some(MessageParameter::Forward { forward: value == 1 })
    } else if type_value == 0x20 && value <= 255 {
        Some(MessageParameter::SubscriberPriority { priority: value as u8 })
    } else if type_value == 0x22 && value == 0 {
        Some(MessageParameter::GroupOrder { order: GroupOrder::Original })
    } else if type_value == 0x22 && value == 1 {
        Some(MessageParameter::GroupOrder { order: GroupOrder::Ascending })
    } else if type_value == 0x22 && value == 2 {
        Some(MessageParameter::GroupOrder { order: GroupOrder::Descending })
    } else if type_value == 0x32 {
        Some(MessageParameter::NewGroupRequest { group: value })
    } else {
        None
    }
}

/// `moqtail`'s `MessageParameter::deserialize`, on a pair that holds a number: it finds the
/// parameter of the pair's type, if the number is one that the type admits.
#[verifier::external_body]
pub(crate) fn read_number_parameter(type_value: u64, value: u64) -> (r: Option<MessageParameter>)
    ensures
        r == number_parameter(type_value, value),
{
    Some(match WireParameter::deserialize(&WirePair::VarInt { type_value, value }).ok()? {
        WireParameter::DeliveryTimeout { timeout } => MessageParameter::DeliveryTimeout { timeout },
        WireParameter::Expires { expires } => MessageParameter::Expires { expires },
        WireParameter::Forward { forward } => MessageParameter::Forward { forward },
        WireParameter::SubscriberPriority { priority } => MessageParameter::SubscriberPriority { priority },
        WireParameter::GroupOrder { order } => MessageParameter::GroupOrder { order: match order {
            WireOrder::Original => GroupOrder::Original,
            WireOrder::Ascending => GroupOrder::Ascending,
            WireOrder::Descending => GroupOrder::Descending,
        } },
        WireParameter::NewGroupRequest { group } => MessageParameter::NewGroupRequest { group },
        _ => return None,
    })
}

/// The parameter that the reader finds in a type with bytes; `None` if it finds fault with them. A
/// token is known by the number that its bytes are kept under.
pub uninterp spec fn bytes_parameter(
    type_value: u64,
    value: Seq<u8>,
    kept_as: u64,
) -> Option<MessageParameter>;

/// `moqtail`'s `MessageParameter::deserialize`, on a pair that holds bytes: what it reads is a
/// matter of the type and the bytes alone. What it reads of given bytes is left unsaid.
#[verifier::external_body]
pub(crate) fn read_bytes_parameter(
    type_value: u64,
    value: &[u8],
    kept_as: u64,
) -> (r: Option<MessageParameter>)
    ensures
        r == bytes_parameter(type_value, value@, kept_as),
{
    let value = bytes::Bytes::copy_from_slice(value);
    Some(match WireParameter::deserialize(&WirePair::Bytes { type_value, value }).ok()? {
        WireParameter::AuthorizationToken { .. } => MessageParameter::AuthorizationToken { token: kept_as },
        WireParameter::LargestObject { location: l } => MessageParameter::LargestObject { location: Location { group: l.group, object: l.object } },
        WireParameter::SubscriptionFilter { filter_type, start_location, end_group } => MessageParameter::SubscriptionFilter {
            filter_type: match filter_type {
                WireFilter::NextGroupStart => FilterType::NextGroupStart,
                WireFilter::LatestObject => FilterType::LatestObject,
                WireFilter::AbsoluteStart => FilterType::AbsoluteStart,
                WireFilter::AbsoluteRange => FilterType::AbsoluteRange,
            },
            start_location: start_location.map(|l| Location { group: l.group, object: l.object }), end_group,
        },
        _ => return None,
    })
}

/// The way of use and the value of the token that the reader finds in a setup parameter that holds
/// bytes; `None` if the parameter is no token or cannot be read.
pub uninterp spec fn setup_token(type_value: u64, value: Seq<u8>) -> Option<
    (u64, Option<Seq<u8>>),
>;

/// `moqtail`'s `SetupParameter::deserialize`, on a pair that holds bytes: what it reads is a matter
/// of the type and the bytes alone. What it reads of given bytes is left unsaid.
#[verifier::external_body]
pub(crate) fn read_setup_token(type_value: u64, value: &[u8]) -> (r: Option<
    (u64, Option<Vec<u8>>),
>)
    ensures
        match r {
            Some((alias_type, Some(v))) => setup_token(type_value, value@) == Some(
                (alias_type, Some(v@)),
            ),
            Some((alias_type, None)) => setup_token(type_value, value@) == Some(
                (alias_type, None::<Seq<u8>>),
            ),
            None => setup_token(type_value, value@) is None,
        },
{
    let value = bytes::Bytes::copy_from_slice(value);
    match WireSetup::deserialize(&WirePair::Bytes { type_value, value }).ok()? {
        WireSetup::AuthorizationToken { token } => Some((token.alias_type, token.token_value.map(|v| v.to_vec()))),
        _ => None,
    }
}

/// The lowest bytes of a number, the highest first.
pub open spec fn big_endian(n: nat, count: nat) -> Seq<u8>
    decreases count,
{
    if count == 0 {
        Seq::empty()
    } else {
        big_endian(n / 256, (count - 1) as nat).push((n % 256) as u8)
    }
}

/// A number below 2^62 as it is written: in one, two, four or eight bytes, and the two highest bits
/// say in how many.
pub open spec fn varint(n: nat) -> Seq<u8> {
    if n < 0x40 {
        big_endian(n, 1)
    } else if n < 0x4000 {
        big_endian(0x4000 + n, 2)
    } else if n < 0x4000_0000 {
        big_endian(0x8000_0000 + n, 4)
    } else {
        big_endian(0xC000_0000_0000_0000 + n, 8)
    }
}

/// Fields as they are written: each behind its length.
pub open spec fn fields_bytes(fields: Seq<Seq<u8>>) -> Seq<u8>
    decreases fields.len(),
{
    if fields.len() == 0 {
        Seq::empty()
    } else {
        fields_bytes(fields.drop_last()) + varint(fields.last().len()) + fields.last()
    }
}

/// A tuple of fields as it is written: their number, and the fields.
pub open spec fn tuple_bytes(fields: Seq<Seq<u8>>) -> Seq<u8> {
    varint(fields.len()) + fields_bytes(fields)
}

/// Whether a tuple can be written: memory holds it, and its lengths are numbers below 2^62.
pub open spec fn tuple_fits(fields: Seq<Seq<u8>>) -> bool {
    &&& tuple_bytes(fields).len() <= isize::MAX / 2
    &&& tuple_bytes(fields).len() < 0x4000_0000_0000_0000
}

/// `moqtail`'s `Tuple::serialize` writes the number of the fields and then each field behind its
/// length. It has no fault to find with a tuple that fits.
#[verifier::external_body]
pub(crate) fn write_tuple(fields: Vec<Vec<u8>>) -> (r: Vec<u8>)
    requires
        tuple_fits(names::contents(fields@)),
    ensures
        r@ == tuple_bytes(names::contents(fields@)),
{
    let fields = fields.into_iter().map(|f| TupleField::new(f.into())).collect();
    Tuple { fields }.serialize().unwrap().to_vec()
}

} // verus!
