//! Question section codec: a query name with its requested type and class.

use vstd::prelude::*;

use crate::errors::DnsError;
use crate::name::decode_name_spec;
use crate::name::encode_name;
use crate::name::encode_name_spec;
use crate::name::encoded_name;
use crate::name::extract_name;
use crate::name::labels_of;
use crate::name::lemma_decode_encoded_name;
use crate::name::valid_name;
use crate::rr::class_code;
use crate::rr::class_from_code;
use crate::rr::rrtype_code;
use crate::rr::rrtype_from_code;
use crate::rr::Class;
use crate::rr::RRType;
use crate::utils::byte_combine;
use crate::utils::combine16;

verus! {

/// A 16-bit value on the wire, most-significant octet first.
pub open spec fn be16(v: int) -> Seq<u8> {
    seq![(v / 256) as u8, (v % 256) as u8]
}

/// Reading back the two octets of a 16-bit big-endian value gives the value.
pub proof fn lemma_be16_combine(v: int)
    requires
        0 <= v < 0x10000,
    ensures
        combine16(be16(v)[0], be16(v)[1]) == v,
{
    assert(0 <= v / 256 < 256);
    assert(0 <= v % 256 < 256);
    assert((v / 256) * 256 + v % 256 == v) by {
        vstd::arithmetic::div_mod::lemma_fundamental_div_mod(v, 256);
    }
}

/// The mathematical content of a question.
pub ghost struct QuestionView {
    pub name: Seq<Seq<u8>>,
    pub qtype: RRType,
    pub qclass: Class,
}

/// One entry of the question section: the queried name, the requested
/// record type, and the record class.
pub struct Question {
    pub name: Vec<Vec<u8>>,
    pub qtype: RRType,
    pub qclass: Class,
}

impl View for Question {
    type V = QuestionView;

    open spec fn view(&self) -> QuestionView {
        QuestionView { name: labels_of(self.name@), qtype: self.qtype, qclass: self.qclass }
    }
}

/// The wire form of a question: the encoded name followed by the 16-bit
/// numeric type and class, each most-significant octet first.
pub open spec fn encoded_question(q: QuestionView) -> Seq<u8> {
    encoded_name(q.name) + be16(rrtype_code(q.qtype)) + be16(class_code(q.qclass))
}

/// What encoding a question yields: its exact wire octets, or the error
/// that its name forces.
pub open spec fn encode_question_spec(q: QuestionView) -> Result<Seq<u8>, DnsError> {
    match encode_name_spec(q.name) {
        Err(e) => Err(e),
        Ok(nb) => Ok(nb + be16(rrtype_code(q.qtype)) + be16(class_code(q.qclass))),
    }
}

/// What decoding a question at `offset` yields: the question and the offset
/// just past its class field, or the first failure met while reading the
/// name, the type, and the class in wire order.
pub open spec fn decode_question_spec(buf: Seq<u8>, offset: int) -> Result<
    (QuestionView, int),
    DnsError,
> {
    match decode_name_spec(buf, offset) {
        Err(e) => Err(e),
        Ok((nm, o)) => {
            if o + 2 > buf.len() {
                Err(DnsError::TruncatedMessage)
            } else {
                match rrtype_from_code(combine16(buf[o], buf[o + 1])) {
                    None => Err(DnsError::UnknownRecordType),
                    Some(t) => {
                        if o + 4 > buf.len() {
                            Err(DnsError::TruncatedMessage)
                        } else {
                            match class_from_code(combine16(buf[o + 2], buf[o + 3])) {
                                None => Err(DnsError::UnknownRecordClass),
                                Some(c) => Ok(
                                    (QuestionView { name: nm, qtype: t, qclass: c }, o + 4),
                                ),
                            }
                        }
                    },
                }
            }
        },
    }
}

/// Append a 16-bit value to `out`, most-significant octet first.
pub(crate) fn push_be16(out: &mut Vec<u8>, v: u16)
    ensures
        final(out)@ == old(out)@ + be16(v as int),
{
    out.push((v / 256) as u8);
    out.push((v % 256) as u8);
}

impl Question {
    /// Construct a question; the class defaults to the Internet class `IN`
    /// when the caller has no other.
    pub fn new(name: Vec<Vec<u8>>, qtype: RRType) -> (q: Question)
        ensures
            q@ == (QuestionView { name: labels_of(name@), qtype, qclass: Class::IN }),
    {
        Question { name, qtype, qclass: Class::IN }
    }

    /// Encode this question: the name in label form, then the numeric type
    /// and class. Fails exactly as name encoding does.
    pub fn to_wire(&self) -> (r: Result<Vec<u8>, DnsError>)
        ensures
            match r {
                Ok(bytes) => encode_question_spec(self@) == Ok::<Seq<u8>, DnsError>(bytes@),
                Err(e) => encode_question_spec(self@) == Err::<Seq<u8>, DnsError>(e),
            },
    {
        let mut out = match encode_name(&self.name) {
            Ok(b) => b,
            Err(e) => {
                return Err(e);
            },
        };
        push_be16(&mut out, self.qtype.code());
        push_be16(&mut out, self.qclass.code());
        assert(out@ =~= encode_question_spec(self@)->Ok_0);
        Ok(out)
    }

    /// Decode a question at `offset`: the name (direct or compressed), then
    /// the 16-bit type and class. Returns the question and the offset just
    /// past its class field.
    pub fn from_wire(buf: &[u8], offset: usize) -> (r: Result<(Question, usize), DnsError>)
        ensures
            match r {
                Ok((q, end)) => decode_question_spec(buf@, offset as int) == Ok::<
                    (QuestionView, int),
                    DnsError,
                >((q@, end as int)),
                Err(e) => decode_question_spec(buf@, offset as int) == Err::<
                    (QuestionView, int),
                    DnsError,
                >(e),
            },
    {
        let (name, o) = match extract_name(buf, offset) {
            Ok(p) => p,
            Err(e) => {
                return Err(e);
            },
        };
        proof {
            crate::rr::lemma_decode_name_end(buf@, offset as int, buf@.len());
        }
        if buf.len() - o < 2 {
            return Err(DnsError::TruncatedMessage);
        }
        let qtype = match RRType::from_u16(byte_combine(buf[o], buf[o + 1])) {
            Some(t) => t,
            None => {
                return Err(DnsError::UnknownRecordType);
            },
        };
        if buf.len() - o < 4 {
            return Err(DnsError::TruncatedMessage);
        }
        let qclass = match Class::from_u16(byte_combine(buf[o + 2], buf[o + 3])) {
            Some(c) => c,
            None => {
                return Err(DnsError::UnknownRecordClass);
            },
        };
        Ok((Question { name, qtype, qclass }, o + 4))
    }
}

/// Round trip: a question whose name is valid and has no empty label
/// encodes with success, and decoding the encoding from its start returns
/// the very same name, type, and class, consuming the whole encoding.
pub proof fn lemma_question_roundtrip(q: QuestionView)
    requires
        valid_name(q.name),
        forall|i: int| 0 <= i < q.name.len() ==> q.name[i].len() >= 1,
    ensures
        encode_question_spec(q) is Ok,
        decode_question_spec(encode_question_spec(q)->Ok_0, 0) == Ok::<(QuestionView, int), DnsError>(
            (q, encode_question_spec(q)->Ok_0.len() as int),
        ),
{
    let nb = encoded_name(q.name);
    let tcode = rrtype_code(q.qtype);
    let ccode = class_code(q.qclass);
    let enc = nb + be16(tcode) + be16(ccode);
    assert(encode_question_spec(q) == Ok::<Seq<u8>, DnsError>(enc));
    let o = nb.len() as int;
    assert(enc.len() == o + 4);
    assert(enc.subrange(0, o) =~= nb);
    lemma_decode_encoded_name(enc, 0, q.name, enc.len());
    assert(decode_name_spec(enc, 0) == Ok::<(Seq<Seq<u8>>, int), DnsError>((q.name, o)));
    assert(enc[o] == be16(tcode)[0] && enc[o + 1] == be16(tcode)[1]);
    assert(enc[o + 2] == be16(ccode)[0] && enc[o + 3] == be16(ccode)[1]);
    assert(0 <= tcode < 0x10000 && 0 <= ccode < 0x10000);
    lemma_be16_combine(tcode);
    lemma_be16_combine(ccode);
    assert(rrtype_from_code(combine16(enc[o], enc[o + 1])) == Some(q.qtype));
    assert(class_from_code(combine16(enc[o + 2], enc[o + 3])) == Some(q.qclass));
}

} // verus!
