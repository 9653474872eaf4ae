//! Message codec: the fixed 12-octet header, the question section, and the
//! answer records.

use vstd::prelude::*;

use crate::errors::DnsError;
use crate::name::labels_of;
use crate::question::be16;
use crate::question::decode_question_spec;
use crate::question::encode_question_spec;
use crate::question::lemma_be16_combine;
use crate::question::Question;
use crate::question::QuestionView;
use crate::rr::decode_rr_spec;
use crate::rr::Class;
use crate::rr::RRType;
use crate::rr::RR;
use crate::rr::RRView;
use crate::utils::byte_combine;
use crate::utils::combine16;

verus! {

/// The questions a vector of questions stands for.
pub open spec fn questions_view(v: Seq<Question>) -> Seq<QuestionView> {
    v.map(|i: int, q: Question| q@)
}

/// The records a vector of records stands for.
pub open spec fn records_view(v: Seq<RR>) -> Seq<RRView> {
    v.map(|i: int, r: RR| r@)
}

/// The mathematical content of a message.
pub ghost struct MessageView {
    pub id: int,
    pub flags: int,
    pub qdcount: int,
    pub ancount: int,
    pub nscount: int,
    pub arcount: int,
    pub questions: Seq<QuestionView>,
    pub answers: Seq<RRView>,
}

/// A DNS message. A query populates the question section; a decoded
/// response also carries the answer records. Authority and additional
/// sections are counted in the header but not parsed.
pub struct Message {
    pub id: u16,
    pub flags: u16,
    pub qdcount: u16,
    pub ancount: u16,
    pub nscount: u16,
    pub arcount: u16,
    pub questions: Vec<Question>,
    pub answers: Vec<RR>,
}

impl View for Message {
    type V = MessageView;

    open spec fn view(&self) -> MessageView {
        MessageView {
            id: self.id as int,
            flags: self.flags as int,
            qdcount: self.qdcount as int,
            ancount: self.ancount as int,
            nscount: self.nscount as int,
            arcount: self.arcount as int,
            questions: questions_view(self.questions@),
            answers: records_view(self.answers@),
        }
    }
}

/// The 12 octets of a message header, each field big-endian.
pub open spec fn encoded_header(m: MessageView) -> Seq<u8> {
    be16(m.id) + be16(m.flags) + be16(m.qdcount) + be16(m.ancount) + be16(m.nscount) + be16(
        m.arcount,
    )
}

/// What encoding a question sequence yields: the questions' wire forms in
/// order, or the error of the first question that cannot be encoded.
pub open spec fn encode_questions_spec(qs: Seq<QuestionView>) -> Result<Seq<u8>, DnsError>
    decreases qs.len(),
{
    if qs.len() == 0 {
        Ok(Seq::empty())
    } else {
        match encode_question_spec(qs[0]) {
            Err(e) => Err(e),
            Ok(b) => match encode_questions_spec(qs.drop_first()) {
                Err(e) => Err(e),
                Ok(rest) => Ok(b + rest),
            },
        }
    }
}

/// What encoding a message yields: the header followed by the encoded
/// question section. Answer records are never encoded: only queries are
/// built, and a query carries none.
pub open spec fn encode_message_spec(m: MessageView) -> Result<Seq<u8>, DnsError> {
    match encode_questions_spec(m.questions) {
        Err(e) => Err(e),
        Ok(qb) => Ok(encoded_header(m) + qb),
    }
}

/// What decoding `n` consecutive questions at `offset` yields: the
/// questions and the offset just past the last one.
pub open spec fn decode_questions_spec(buf: Seq<u8>, offset: int, n: nat) -> Result<
    (Seq<QuestionView>, int),
    DnsError,
>
    decreases n,
{
    if n == 0 {
        Ok((Seq::empty(), offset))
    } else {
        match decode_question_spec(buf, offset) {
            Err(e) => Err(e),
            Ok((q, o)) => match decode_questions_spec(buf, o, (n - 1) as nat) {
                Err(e) => Err(e),
                Ok((qs, end)) => Ok((seq![q] + qs, end)),
            },
        }
    }
}

/// What decoding `n` consecutive resource records at `offset` yields: the
/// records and the offset just past the last one.
pub open spec fn decode_records_spec(buf: Seq<u8>, offset: int, n: nat) -> Result<
    (Seq<RRView>, int),
    DnsError,
>
    decreases n,
{
    if n == 0 {
        Ok((Seq::empty(), offset))
    } else {
        match decode_rr_spec(buf, offset) {
            Err(e) => Err(e),
            Ok((r, o)) => match decode_records_spec(buf, o, (n - 1) as nat) {
                Err(e) => Err(e),
                Ok((rs, end)) => Ok((seq![r] + rs, end)),
            },
        }
    }
}

/// What decoding a message yields: the header fields, `qdcount` questions,
/// and `ancount` answer records. Authority and additional records are left
/// unparsed; a buffer shorter than the header fails with
/// `TruncatedMessage`, as does any section that runs past the buffer end.
pub open spec fn decode_message_spec(buf: Seq<u8>) -> Result<MessageView, DnsError> {
    if buf.len() < 12 {
        Err(DnsError::TruncatedMessage)
    } else {
        let qd = combine16(buf[4], buf[5]);
        let an = combine16(buf[6], buf[7]);
        match decode_questions_spec(buf, 12, qd as nat) {
            Err(e) => Err(e),
            Ok((qs, o)) => match decode_records_spec(buf, o, an as nat) {
                Err(e) => Err(e),
                Ok((rs, _)) => Ok(
                    MessageView {
                        id: combine16(buf[0], buf[1]),
                        flags: combine16(buf[2], buf[3]),
                        qdcount: qd,
                        ancount: an,
                        nscount: combine16(buf[8], buf[9]),
                        arcount: combine16(buf[10], buf[11]),
                        questions: qs,
                        answers: rs,
                    },
                ),
            },
        }
    }
}

/// The header flags of a standard query: the recursion-desired bit set,
/// everything else clear.
pub open spec fn query_flags() -> int {
    0x0100
}

/// The message a query is built from: the given transaction id, standard
/// recursive-query flags, and one question for `name` in the Internet
/// class.
pub open spec fn query_view(id: int, name: Seq<Seq<u8>>, qtype: RRType) -> MessageView {
    MessageView {
        id: id,
        flags: query_flags(),
        qdcount: 1,
        ancount: 0,
        nscount: 0,
        arcount: 0,
        questions: seq![QuestionView { name, qtype, qclass: Class::IN }],
        answers: Seq::<RRView>::empty(),
    }
}

/// Round trip of a whole query: a query message built around a valid name
/// with no empty label encodes with success, and decoding its wire form
/// returns exactly the query message: the same transaction id and flags, a
/// question count of one, no answers, and the one original question.
#[verifier::rlimit(100)]
pub proof fn lemma_query_roundtrip(id: int, name: Seq<Seq<u8>>, qtype: RRType)
    requires
        0 <= id < 0x10000,
        crate::name::valid_name(name),
        forall|i: int| 0 <= i < name.len() ==> name[i].len() >= 1,
    ensures
        encode_message_spec(query_view(id, name, qtype)) is Ok,
        decode_message_spec(encode_message_spec(query_view(id, name, qtype))->Ok_0) == Ok::<
            MessageView,
            DnsError,
        >(query_view(id, name, qtype)),
{
    let m = query_view(id, name, qtype);
    let q = QuestionView { name, qtype, qclass: Class::IN };
    let nb = crate::name::encoded_name(name);
    let tcode = crate::rr::rrtype_code(qtype);
    let ccode = crate::rr::class_code(Class::IN);
    let qb = nb + be16(tcode) + be16(ccode);

    // The encoding is the header followed by the one question's bytes.
    assert(m.questions[0] == q);
    assert(m.questions.drop_first() =~= Seq::<QuestionView>::empty());
    assert(encode_question_spec(q) == Ok::<Seq<u8>, DnsError>(qb));
    assert(qb + Seq::<u8>::empty() =~= qb);
    assert(encode_questions_spec(Seq::<QuestionView>::empty()) == Ok::<Seq<u8>, DnsError>(
        Seq::<u8>::empty(),
    ));
    assert(encode_questions_spec(m.questions) == Ok::<Seq<u8>, DnsError>(qb));
    let hdr = encoded_header(m);
    let buf = hdr + qb;
    assert(encode_message_spec(m) == Ok::<Seq<u8>, DnsError>(buf));

    // The header fields read back as they were written.
    assert(hdr.len() == 12);
    assert(nb.len() >= 1);
    assert(buf.len() >= 12);
    assert(buf[0] == be16(id)[0] && buf[1] == be16(id)[1]);
    assert(buf[2] == be16(0x0100)[0] && buf[3] == be16(0x0100)[1]);
    assert(buf[4] == be16(1)[0] && buf[5] == be16(1)[1]);
    assert(buf[6] == be16(0)[0] && buf[7] == be16(0)[1]);
    assert(buf[8] == be16(0)[0] && buf[9] == be16(0)[1]);
    assert(buf[10] == be16(0)[0] && buf[11] == be16(0)[1]);
    lemma_be16_combine(id);
    lemma_be16_combine(0x0100);
    lemma_be16_combine(1);
    lemma_be16_combine(0);
    assert(combine16(buf[0], buf[1]) == id);
    assert(combine16(buf[2], buf[3]) == 0x0100);
    assert(combine16(buf[4], buf[5]) == 1);
    assert(combine16(buf[6], buf[7]) == 0);
    assert(combine16(buf[8], buf[9]) == 0);
    assert(combine16(buf[10], buf[11]) == 0);

    // The one question decodes back from offset 12.
    let o = 12 + nb.len() as int;
    assert(buf.subrange(12, o) =~= nb) by {
        assert(forall|k: int| 0 <= k < nb.len() ==> #[trigger] buf[12 + k] == qb[k]);
    }
    crate::name::lemma_decode_encoded_name(buf, 12, name, buf.len());
    assert(crate::name::decode_name_spec(buf, 12) == Ok::<(Seq<Seq<u8>>, int), DnsError>(
        (name, o),
    ));
    assert(buf[o] == be16(tcode)[0] && buf[o + 1] == be16(tcode)[1]);
    assert(buf[o + 2] == be16(ccode)[0] && buf[o + 3] == be16(ccode)[1]);
    lemma_be16_combine(tcode);
    lemma_be16_combine(ccode);
    assert(crate::rr::rrtype_from_code(combine16(buf[o], buf[o + 1])) == Some(qtype));
    assert(crate::rr::class_from_code(combine16(buf[o + 2], buf[o + 3])) == Some(Class::IN));
    assert(o + 4 == buf.len());
    assert(decode_question_spec(buf, 12) == Ok::<(QuestionView, int), DnsError>((q, o + 4)));

    // One question, then no answer records, and the fields reassemble.
    assert(decode_questions_spec(buf, o + 4, 0) == Ok::<(Seq<QuestionView>, int), DnsError>(
        (Seq::<QuestionView>::empty(), o + 4),
    ));
    assert(seq![q] + Seq::<QuestionView>::empty() =~= seq![q]);
    assert(decode_questions_spec(buf, 12, 1) == Ok::<(Seq<QuestionView>, int), DnsError>(
        (seq![q], o + 4),
    ));
    assert(decode_records_spec(buf, o + 4, 0) == Ok::<(Seq<RRView>, int), DnsError>(
        (Seq::<RRView>::empty(), o + 4),
    ));
    assert(decode_message_spec(buf)->Ok_0 == m);
}

/// Build the wire form of a query: parse the dot-separated textual name and
/// the textual record-type name, and encode a message with the given
/// transaction id around the one question they make. Fails with
/// `UnknownRecordType` when the type name is not in the supported
/// enumeration, and as name encoding does when the name is too long.
pub fn build_query(id: u16, name_text: &[u8], qtype_name: &[u8]) -> (r: Result<Vec<u8>, DnsError>)
    ensures
        match r {
            Ok(bytes) => crate::rr::rrtype_from_name(qtype_name@) matches Some(t)
                && encode_message_spec(
                query_view(id as int, crate::name::name_labels_of_text(name_text@), t),
            ) == Ok::<Seq<u8>, DnsError>(bytes@),
            Err(e) => (crate::rr::rrtype_from_name(qtype_name@) is None && e
                == DnsError::UnknownRecordType) || (crate::rr::rrtype_from_name(qtype_name@)
                matches Some(t) && encode_message_spec(
                query_view(id as int, crate::name::name_labels_of_text(name_text@), t),
            ) == Err::<Seq<u8>, DnsError>(e)),
        },
{
    let qtype = match RRType::from_name(qtype_name) {
        Some(t) => t,
        None => {
            return Err(DnsError::UnknownRecordType);
        },
    };
    let name = crate::name::name_from_text(name_text);
    let m = Message::new(id, name, qtype);
    m.to_wire()
}

impl Message {
    /// Build a query message: the given transaction id, standard
    /// recursive-query flags, a question count of one, and a single
    /// question for `name` with the given type in the Internet class.
    pub fn new(id: u16, name: Vec<Vec<u8>>, qtype: RRType) -> (m: Message)
        ensures
            m@ == (MessageView {
                id: id as int,
                flags: query_flags(),
                qdcount: 1,
                ancount: 0,
                nscount: 0,
                arcount: 0,
                questions: seq![
                    QuestionView { name: labels_of(name@), qtype, qclass: Class::IN },
                ],
                answers: Seq::<RRView>::empty(),
            }),
    {
        let ghost name_view = labels_of(name@);
        let q = Question::new(name, qtype);
        let mut questions: Vec<Question> = Vec::new();
        questions.push(q);
        let answers: Vec<RR> = Vec::new();
        let m = Message {
            id,
            flags: 0x0100,
            qdcount: 1,
            ancount: 0,
            nscount: 0,
            arcount: 0,
            questions,
            answers,
        };
        proof {
            assert(questions_view(m.questions@) =~= seq![
                QuestionView { name: name_view, qtype, qclass: Class::IN },
            ]);
            assert(records_view(m.answers@) =~= Seq::<RRView>::empty());
        }
        m
    }

    /// Encode this message for sending: the 12-octet header, then each
    /// question in order. Fails exactly as encoding of the first invalid
    /// question's name does.
    pub fn to_wire(&self) -> (r: Result<Vec<u8>, DnsError>)
        ensures
            match r {
                Ok(bytes) => encode_message_spec(self@) == Ok::<Seq<u8>, DnsError>(bytes@),
                Err(e) => encode_message_spec(self@) == Err::<Seq<u8>, DnsError>(e),
            },
    {
        let ghost m = self@;
        let mut out: Vec<u8> = Vec::new();
        crate::question::push_be16(&mut out, self.id);
        crate::question::push_be16(&mut out, self.flags);
        crate::question::push_be16(&mut out, self.qdcount);
        crate::question::push_be16(&mut out, self.ancount);
        crate::question::push_be16(&mut out, self.nscount);
        crate::question::push_be16(&mut out, self.arcount);
        assert(out@ =~= encoded_header(m));
        proof {
            assert(m.questions.skip(0) =~= m.questions);
        }
        let mut i: usize = 0;
        while i < self.questions.len()
            invariant
                i <= self.questions@.len(),
                m == self@,
                m.questions == questions_view(self.questions@),
                (match encode_questions_spec(m.questions.skip(i as int)) {
                    Ok(rest) => encode_message_spec(m) == Ok::<Seq<u8>, DnsError>(out@ + rest),
                    Err(e) => encode_message_spec(m) == Err::<Seq<u8>, DnsError>(e),
                }),
            decreases self.questions@.len() - i,
        {
            let ghost pending = m.questions.skip(i as int);
            proof {
                assert(pending[0] == m.questions[i as int]);
                assert(pending.drop_first() =~= m.questions.skip(i + 1));
            }
            let mut qb = match self.questions[i].to_wire() {
                Ok(b) => b,
                Err(e) => {
                    return Err(e);
                },
            };
            let ghost old_out = out@;
            out.append(&mut qb);
            proof {
                match encode_questions_spec(m.questions.skip(i + 1)) {
                    Ok(rest) => {
                        assert(out@ + rest =~= old_out + (encode_question_spec(pending[0])->Ok_0
                            + rest));
                    },
                    Err(_) => {},
                }
            }
            i = i + 1;
        }
        proof {
            assert(m.questions.skip(m.questions.len() as int) =~= Seq::<QuestionView>::empty());
            assert(out@ + Seq::<u8>::empty() =~= out@);
        }
        Ok(out)
    }

    /// Decode a response message: the header, `qdcount` questions, then
    /// `ancount` answer records. Authority and additional sections are not
    /// parsed.
    pub fn from_wire(buf: &[u8]) -> (r: Result<Message, DnsError>)
        ensures
            match r {
                Ok(m) => decode_message_spec(buf@) == Ok::<MessageView, DnsError>(m@),
                Err(e) => decode_message_spec(buf@) == Err::<MessageView, DnsError>(e),
            },
    {
        if buf.len() < 12 {
            return Err(DnsError::TruncatedMessage);
        }
        let id = byte_combine(buf[0], buf[1]);
        let flags = byte_combine(buf[2], buf[3]);
        let qdcount = byte_combine(buf[4], buf[5]);
        let ancount = byte_combine(buf[6], buf[7]);
        let nscount = byte_combine(buf[8], buf[9]);
        let arcount = byte_combine(buf[10], buf[11]);

        let mut questions: Vec<Question> = Vec::new();
        let mut cur: usize = 12;
        let mut i: u16 = 0;
        while i < qdcount
            invariant
                i <= qdcount,
                qdcount == combine16(buf@[4], buf@[5]),
                (match decode_questions_spec(buf@, cur as int, (qdcount - i) as nat) {
                    Ok(p) => decode_questions_spec(buf@, 12, qdcount as nat) == Ok::<
                        (Seq<QuestionView>, int),
                        DnsError,
                    >((questions_view(questions@) + p.0, p.1)),
                    Err(e) => decode_questions_spec(buf@, 12, qdcount as nat) == Err::<
                        (Seq<QuestionView>, int),
                        DnsError,
                    >(e),
                }),
            decreases qdcount - i,
        {
            let (q, o) = match Question::from_wire(buf, cur) {
                Ok(p) => p,
                Err(e) => {
                    return Err(e);
                },
            };
            let ghost old_view = questions_view(questions@);
            let ghost qv = q@;
            questions.push(q);
            proof {
                assert(questions_view(questions@) =~= old_view.push(qv));
                match decode_questions_spec(buf@, o as int, (qdcount - i - 1) as nat) {
                    Ok(p) => {
                        assert(old_view.push(qv) + p.0 =~= old_view + (seq![qv] + p.0));
                    },
                    Err(_) => {},
                }
            }
            cur = o;
            i = i + 1;
        }
        proof {
            assert(questions_view(questions@) + Seq::<QuestionView>::empty() =~= questions_view(
                questions@,
            ));
        }

        let mut answers: Vec<RR> = Vec::new();
        let mut i: u16 = 0;
        while i < ancount
            invariant
                i <= ancount,
                ancount == combine16(buf@[6], buf@[7]),
                decode_questions_spec(buf@, 12, combine16(buf@[4], buf@[5]) as nat) matches Ok(p)
                    && questions_view(questions@) == p.0,
                (match decode_records_spec(buf@, cur as int, (ancount - i) as nat) {
                    Ok(p) => decode_records_spec(
                        buf@,
                        decode_questions_spec(
                            buf@,
                            12,
                            combine16(buf@[4], buf@[5]) as nat,
                        )->Ok_0.1,
                        ancount as nat,
                    ) == Ok::<(Seq<RRView>, int), DnsError>((records_view(answers@) + p.0, p.1)),
                    Err(e) => decode_records_spec(
                        buf@,
                        decode_questions_spec(
                            buf@,
                            12,
                            combine16(buf@[4], buf@[5]) as nat,
                        )->Ok_0.1,
                        ancount as nat,
                    ) == Err::<(Seq<RRView>, int), DnsError>(e),
                }),
            decreases ancount - i,
        {
            let (rec, o) = match RR::from_wire(buf, cur) {
                Ok(p) => p,
                Err(e) => {
                    return Err(e);
                },
            };
            let ghost old_view = records_view(answers@);
            let ghost rv = rec@;
            answers.push(rec);
            proof {
                assert(records_view(answers@) =~= old_view.push(rv));
                match decode_records_spec(buf@, o as int, (ancount - i - 1) as nat) {
                    Ok(p) => {
                        assert(old_view.push(rv) + p.0 =~= old_view + (seq![rv] + p.0));
                    },
                    Err(_) => {},
                }
            }
            cur = o;
            i = i + 1;
        }
        proof {
            assert(records_view(answers@) + Seq::<RRView>::empty() =~= records_view(answers@));
        }

        Ok(Message { id, flags, qdcount, ancount, nscount, arcount, questions, answers })
    }
}

} // verus!
