//! Resource records and how a stored value becomes one.

use crate::addr::{
    dotted_decimal, format_ipv6, ipv4_of_text, ipv6_of_text, ipv6_text, parse_ipv4, parse_ipv6,
    Ipv4Address, Ipv6Address,
};
use crate::text::same_text;
use hickory_proto::rr::Name;
use vstd::prelude::*;

verus! {

/// The TTL, in seconds, of a record whose stored TTL is absent.
pub const DEFAULT_TTL: u32 = 0;

/// The type of a query or of a record.
///
/// `A`, `Aaaa` and `Cname` are the types that the authoritative store serves;
/// every other type is carried by its number.
#[derive(Clone, Copy, Debug, PartialEq, Eq, Structural)]
pub enum RecordType {
    A,
    Aaaa,
    Cname,
    Other(u16),
}

impl RecordType {
    /// Whether the authoritative store serves this type.
    pub open spec fn supported(self) -> bool {
        !(self is Other)
    }

    /// The number of this type on the wire.
    pub open spec fn spec_code(self) -> u16 {
        match self {
            RecordType::A => 1,
            RecordType::Cname => 5,
            RecordType::Aaaa => 28,
            RecordType::Other(code) => code,
        }
    }

    /// The type with the given number, in its one spelling: the three
    /// served types are never `Other`.
    pub open spec fn spec_from_code(code: u16) -> RecordType {
        if code == 1 {
            RecordType::A
        } else if code == 5 {
            RecordType::Cname
        } else if code == 28 {
            RecordType::Aaaa
        } else {
            RecordType::Other(code)
        }
    }

    /// The word for this type in the authoritative store, for the served
    /// types.
    pub open spec fn spec_label(self) -> Option<Seq<char>> {
        match self {
            RecordType::A => Some(seq!['A']),
            RecordType::Aaaa => Some(seq!['A', 'A', 'A', 'A']),
            RecordType::Cname => Some(seq!['C', 'N', 'A', 'M', 'E']),
            RecordType::Other(_) => None,
        }
    }

    /// Whether the authoritative store serves this type.
    pub fn is_supported(&self) -> (yes: bool)
        ensures
            yes == self.supported(),
    {
        match self {
            RecordType::Other(_) => false,
            _ => true,
        }
    }

    /// The number of this type on the wire.
    pub fn code(&self) -> (code: u16)
        ensures
            code == self.spec_code(),
    {
        match self {
            RecordType::A => 1,
            RecordType::Cname => 5,
            RecordType::Aaaa => 28,
            RecordType::Other(code) => *code,
        }
    }

    /// The type with the given number.
    pub fn from_code(code: u16) -> (record_type: RecordType)
        ensures
            record_type == Self::spec_from_code(code),
            record_type.spec_code() == code,
    {
        if code == 1 {
            RecordType::A
        } else if code == 5 {
            RecordType::Cname
        } else if code == 28 {
            RecordType::Aaaa
        } else {
            RecordType::Other(code)
        }
    }

    /// The word for this type in the authoritative store: `A`, `AAAA` or
    /// `CNAME`. A type that the store does not serve has none.
    pub fn label(&self) -> (label: Option<&'static str>)
        ensures
            label is Some <==> self.supported(),
            label matches Some(word) ==> self.spec_label() == Some(word@),
    {
        proof {
            reveal_strlit("A");
            reveal_strlit("AAAA");
            reveal_strlit("CNAME");
        }
        match self {
            RecordType::A => {
                assert("A"@ =~= seq!['A']);
                Some("A")
            },
            RecordType::Aaaa => {
                assert("AAAA"@ =~= seq!['A', 'A', 'A', 'A']);
                Some("AAAA")
            },
            RecordType::Cname => {
                assert("CNAME"@ =~= seq!['C', 'N', 'A', 'M', 'E']);
                Some("CNAME")
            },
            RecordType::Other(_) => None,
        }
    }

    /// The served type that the authoritative store writes as `word`, if
    /// `word` is one of its three words.
    pub fn from_label(word: &str) -> (record_type: Option<RecordType>)
        ensures
            match record_type {
                Some(found) => found.spec_label() == Some(word@),
                None => forall|served: RecordType| served.spec_label() != Some(word@),
            },
    {
        proof {
            reveal_strlit("A");
            reveal_strlit("AAAA");
            reveal_strlit("CNAME");
            assert("A"@ =~= seq!['A']);
            assert("AAAA"@ =~= seq!['A', 'A', 'A', 'A']);
            assert("CNAME"@ =~= seq!['C', 'N', 'A', 'M', 'E']);
        }
        if same_text(word, "A") {
            Some(RecordType::A)
        } else if same_text(word, "AAAA") {
            Some(RecordType::Aaaa)
        } else if same_text(word, "CNAME") {
            Some(RecordType::Cname)
        } else {
            None
        }
    }
}

/// What a record says: an address, a name, or data of a type that is only
/// passed on.
#[derive(Clone, Debug, PartialEq, Eq)]
pub enum RecordData {
    /// An IPv4 address.
    A(Ipv4Address),
    /// An IPv6 address.
    Aaaa(Ipv6Address),
    /// A domain name in presentation format.
    Cname(String),
    /// Data of another type, in wire form.
    Raw { type_code: u16, data: Vec<u8> },
}

/// The mathematical value of a `RecordData`.
pub enum RecordDataView {
    A(Seq<u8>),
    Aaaa(Seq<u16>),
    Cname(Seq<char>),
    Raw { type_code: u16, data: Seq<u8> },
}

impl View for RecordData {
    type V = RecordDataView;

    open spec fn view(&self) -> RecordDataView {
        match self {
            RecordData::A(a) => RecordDataView::A(a.octets@),
            RecordData::Aaaa(a) => RecordDataView::Aaaa(a.segments@),
            RecordData::Cname(name) => RecordDataView::Cname(name@),
            RecordData::Raw { type_code, data } => RecordDataView::Raw {
                type_code: *type_code,
                data: data@,
            },
        }
    }
}

impl RecordDataView {
    /// The text of the data, for the three served types: dotted decimal for
    /// an IPv4 address, the formatter's text for an IPv6 address, the name
    /// itself for a name.
    pub open spec fn text(self) -> Option<Seq<char>> {
        match self {
            RecordDataView::A(octets) => Some(dotted_decimal(octets)),
            RecordDataView::Aaaa(segments) => Some(ipv6_text(segments)),
            RecordDataView::Cname(name) => Some(name),
            RecordDataView::Raw { .. } => None,
        }
    }

    /// The type of a record that holds this data.
    pub open spec fn record_type(self) -> RecordType {
        match self {
            RecordDataView::A(_) => RecordType::A,
            RecordDataView::Aaaa(_) => RecordType::Aaaa,
            RecordDataView::Cname(_) => RecordType::Cname,
            RecordDataView::Raw { type_code, .. } => RecordType::spec_from_code(type_code),
        }
    }
}

impl RecordData {
    /// The type of a record that holds this data.
    pub fn record_type(&self) -> (record_type: RecordType)
        ensures
            record_type == self@.record_type(),
    {
        match self {
            RecordData::A(_) => RecordType::A,
            RecordData::Aaaa(_) => RecordType::Aaaa,
            RecordData::Cname(_) => RecordType::Cname,
            RecordData::Raw { type_code, .. } => RecordType::from_code(*type_code),
        }
    }

    /// A copy of these data.
    pub fn duplicate(&self) -> (copy: Self)
        ensures
            copy@ == self@,
    {
        match self {
            RecordData::A(address) => RecordData::A(*address),
            RecordData::Aaaa(address) => RecordData::Aaaa(*address),
            RecordData::Cname(name) => RecordData::Cname(name.clone()),
            RecordData::Raw { type_code, data } => {
                let copy = data.clone();
                assert(copy@ =~= data@);
                RecordData::Raw { type_code: *type_code, data: copy }
            },
        }
    }

    /// The text of the data, for the three served types; `None` for data
    /// that is only passed on.
    pub fn to_text(&self) -> (text: Option<String>)
        ensures
            match text {
                Some(t) => self@.text() == Some(t@),
                None => self@.text() is None,
            },
    {
        match self {
            RecordData::A(a) => Some(a.to_text()),
            RecordData::Aaaa(a) => Some(format_ipv6(a)),
            RecordData::Cname(name) => Some(name.clone()),
            RecordData::Raw { .. } => None,
        }
    }
}

/// One answer: whose it is, how long it may be kept, and what it says.
#[derive(Clone, Debug, PartialEq, Eq)]
pub struct ResourceRecord {
    pub name: String,
    pub ttl: u32,
    pub rdata: RecordData,
}

/// The mathematical value of a `ResourceRecord`.
pub struct ResourceRecordView {
    pub name: Seq<char>,
    pub ttl: u32,
    pub rdata: RecordDataView,
}

impl View for ResourceRecord {
    type V = ResourceRecordView;

    open spec fn view(&self) -> ResourceRecordView {
        ResourceRecordView { name: self.name@, ttl: self.ttl, rdata: self.rdata@ }
    }
}

impl ResourceRecord {
    /// A copy of this record.
    pub fn duplicate(&self) -> (copy: Self)
        ensures
            copy@ == self@,
    {
        ResourceRecord { name: self.name.clone(), ttl: self.ttl, rdata: self.rdata.duplicate() }
    }

    /// A record passed on as it came: its data stay in wire form, under the
    /// number of their type.
    pub fn relayed(name: String, ttl: u32, type_code: u16, data: Vec<u8>) -> (record: Self)
        ensures
            record@ == (ResourceRecordView {
                name: name@,
                ttl,
                rdata: RecordDataView::Raw { type_code, data: data@ },
            }),
    {
        ResourceRecord { name, ttl, rdata: RecordData::Raw { type_code, data } }
    }
}

/// Whether `text` is a domain name in presentation format, as the name
/// parser behind `is_name` reads one.
pub uninterp spec fn is_domain_name(text: Seq<char>) -> bool;

/// Calls `hickory_proto::rr::Name::from_utf8` and says whether it gave a
/// name.
///
/// Trusted: whether a text parses depends on the text alone. Nothing is
/// claimed of which texts parse; `is_domain_name` names the outcome.
#[verifier::external_body]
fn is_name(text: &str) -> (yes: bool)
    ensures
        yes == is_domain_name(text@),
{
    Name::from_utf8(text).is_ok()
}

/// Whether a stored value of the given type can become a record: dotted
/// decimal for `A`, IPv6 text for `Aaaa`, a domain name for `Cname`. No value
/// of another type can.
pub open spec fn well_formed(record_type: RecordType, value: Seq<char>) -> bool {
    match record_type {
        RecordType::A => ipv4_of_text(value) is Some,
        RecordType::Aaaa => ipv6_of_text(value) is Some,
        RecordType::Cname => is_domain_name(value),
        RecordType::Other(_) => false,
    }
}

/// The TTL of a record made from a stored TTL: the stored one, or
/// `DEFAULT_TTL` where none is stored.
pub open spec fn effective_ttl(ttl: Option<u32>) -> u32 {
    match ttl {
        Some(seconds) => seconds,
        None => DEFAULT_TTL,
    }
}

/// The record that a stored value becomes.
///
/// An address record is owned by `name`. A name record is owned by the name
/// it holds: the stored value names both the record and its data.
pub open spec fn synthesized(
    name: Seq<char>,
    record_type: RecordType,
    value: Seq<char>,
    ttl: Option<u32>,
) -> Option<ResourceRecordView> {
    if !well_formed(record_type, value) {
        None
    } else {
        Some(
            match record_type {
                RecordType::A => ResourceRecordView {
                    name,
                    ttl: effective_ttl(ttl),
                    rdata: RecordDataView::A(ipv4_of_text(value)->0),
                },
                RecordType::Aaaa => ResourceRecordView {
                    name,
                    ttl: effective_ttl(ttl),
                    rdata: RecordDataView::Aaaa(ipv6_of_text(value)->0),
                },
                _ => ResourceRecordView {
                    name: value,
                    ttl: effective_ttl(ttl),
                    rdata: RecordDataView::Cname(value),
                },
            },
        )
    }
}

/// Turns a stored value into a typed record.
///
/// Returns a record exactly when the value is well formed for the type, and
/// then the record that `synthesized` describes. A malformed value, or a type
/// that is not served, gives `None`; no default is put in its place.
pub fn synthesize(name: &str, record_type: RecordType, raw_value: &str, ttl: Option<u32>) -> (r:
    Option<ResourceRecord>)
    ensures
        r is Some <==> well_formed(record_type, raw_value@),
        match r {
            Some(record) => synthesized(name@, record_type, raw_value@, ttl) == Some(record@),
            None => synthesized(name@, record_type, raw_value@, ttl) is None,
        },
{
    let seconds = match ttl {
        Some(seconds) => seconds,
        None => DEFAULT_TTL,
    };
    match record_type {
        RecordType::A => match parse_ipv4(raw_value) {
            Some(address) => Some(
                ResourceRecord {
                    name: name.to_owned(),
                    ttl: seconds,
                    rdata: RecordData::A(address),
                },
            ),
            None => None,
        },
        RecordType::Aaaa => match parse_ipv6(raw_value) {
            Some(address) => Some(
                ResourceRecord {
                    name: name.to_owned(),
                    ttl: seconds,
                    rdata: RecordData::Aaaa(address),
                },
            ),
            None => None,
        },
        RecordType::Cname => {
            if is_name(raw_value) {
                Some(
                    ResourceRecord {
                        name: raw_value.to_owned(),
                        ttl: seconds,
                        rdata: RecordData::Cname(raw_value.to_owned()),
                    },
                )
            } else {
                None
            }
        },
        RecordType::Other(_) => None,
    }
}

/// A well-formed stored value comes back as the text of the record made from
/// it.
///
/// This holds of every dotted-decimal IPv4 value and of every domain name.
/// An IPv6 value has several spellings of one address, so it holds of the
/// value that is spelled as the formatter spells its address.
pub proof fn lemma_synthesize_round_trip(
    name: Seq<char>,
    record_type: RecordType,
    value: Seq<char>,
    ttl: Option<u32>,
)
    requires
        well_formed(record_type, value),
        record_type == RecordType::Aaaa ==> ipv6_text(ipv6_of_text(value)->0) == value,
    ensures
        synthesized(name, record_type, value, ttl) matches Some(record) && record.rdata.text()
            == Some(value) && record.rdata.record_type() == record_type,
{
}

} // verus!
