//! Resource records: the supported record types and classes, and decoding
//! of a record from a response buffer.

use vstd::prelude::*;

use crate::errors::DnsError;
use crate::name::decode_name_spec;
use crate::name::extract_name;
use crate::name::labels_of;
use crate::text::decimal_of;
use crate::text::push_decimal;
use crate::text::push_signed_decimal;
use crate::text::signed_decimal_of;
use crate::utils::byte_combine;
use crate::utils::combine16;

verus! {

/// The record types this codec understands. Decoding any other numeric
/// type fails with `UnknownRecordType`.
#[derive(Debug, Clone, Copy, PartialEq, Eq, Structural)]
pub enum RRType {
    A,
    NS,
    CNAME,
    SOA,
    PTR,
    MX,
    TXT,
}

/// The record classes this codec understands. Decoding any other numeric
/// class fails with `UnknownRecordClass`.
#[derive(Debug, Clone, Copy, PartialEq, Eq, Structural)]
pub enum Class {
    IN,
    CS,
    CH,
    HS,
}

/// The numeric wire value of a record type.
pub open spec fn rrtype_code(t: RRType) -> int {
    match t {
        RRType::A => 1,
        RRType::NS => 2,
        RRType::CNAME => 5,
        RRType::SOA => 6,
        RRType::PTR => 12,
        RRType::MX => 15,
        RRType::TXT => 16,
    }
}

/// The record type a numeric wire value stands for, if any.
pub open spec fn rrtype_from_code(v: int) -> Option<RRType> {
    if v == 1 {
        Some(RRType::A)
    } else if v == 2 {
        Some(RRType::NS)
    } else if v == 5 {
        Some(RRType::CNAME)
    } else if v == 6 {
        Some(RRType::SOA)
    } else if v == 12 {
        Some(RRType::PTR)
    } else if v == 15 {
        Some(RRType::MX)
    } else if v == 16 {
        Some(RRType::TXT)
    } else {
        None
    }
}

/// The numeric wire value of a record class.
pub open spec fn class_code(c: Class) -> int {
    match c {
        Class::IN => 1,
        Class::CS => 2,
        Class::CH => 3,
        Class::HS => 4,
    }
}

/// The record class a numeric wire value stands for, if any.
pub open spec fn class_from_code(v: int) -> Option<Class> {
    if v == 1 {
        Some(Class::IN)
    } else if v == 2 {
        Some(Class::CS)
    } else if v == 3 {
        Some(Class::CH)
    } else if v == 4 {
        Some(Class::HS)
    } else {
        None
    }
}

impl RRType {
    /// The numeric wire value of this record type.
    pub fn code(&self) -> (r: u16)
        ensures
            r == rrtype_code(*self),
    {
        match self {
            RRType::A => 1,
            RRType::NS => 2,
            RRType::CNAME => 5,
            RRType::SOA => 6,
            RRType::PTR => 12,
            RRType::MX => 15,
            RRType::TXT => 16,
        }
    }

    /// Map a numeric wire value to a record type; `None` when the value is
    /// outside the supported enumeration.
    pub fn from_u16(v: u16) -> (r: Option<RRType>)
        ensures
            r == rrtype_from_code(v as int),
    {
        match v {
            1 => Some(RRType::A),
            2 => Some(RRType::NS),
            5 => Some(RRType::CNAME),
            6 => Some(RRType::SOA),
            12 => Some(RRType::PTR),
            15 => Some(RRType::MX),
            16 => Some(RRType::TXT),
            _ => None,
        }
    }
}

/// The record type a textual type name stands for, if any; the name is
/// given as its octets.
pub open spec fn rrtype_from_name(s: Seq<u8>) -> Option<RRType> {
    if s == seq!['A' as u8] {
        Some(RRType::A)
    } else if s == seq!['N' as u8, 'S' as u8] {
        Some(RRType::NS)
    } else if s == seq!['C' as u8, 'N' as u8, 'A' as u8, 'M' as u8, 'E' as u8] {
        Some(RRType::CNAME)
    } else if s == seq!['S' as u8, 'O' as u8, 'A' as u8] {
        Some(RRType::SOA)
    } else if s == seq!['P' as u8, 'T' as u8, 'R' as u8] {
        Some(RRType::PTR)
    } else if s == seq!['M' as u8, 'X' as u8] {
        Some(RRType::MX)
    } else if s == seq!['T' as u8, 'X' as u8, 'T' as u8] {
        Some(RRType::TXT)
    } else {
        None
    }
}

/// Whether `s` is the single octet `a`.
fn eq1(s: &[u8], a: u8) -> (r: bool)
    ensures
        r == (s@ == seq![a]),
{
    if s.len() != 1 {
        return false;
    }
    let r = s[0] == a;
    proof {
        if s@[0] == a {
            assert(s@ =~= seq![a]);
        }
    }
    r
}

/// Whether `s` is exactly the two octets `a`, `b`.
fn eq2(s: &[u8], a: u8, b: u8) -> (r: bool)
    ensures
        r == (s@ == seq![a, b]),
{
    if s.len() != 2 {
        return false;
    }
    let r = s[0] == a && s[1] == b;
    proof {
        if s@[0] == a && s@[1] == b {
            assert(s@ =~= seq![a, b]);
        }
    }
    r
}

/// Whether `s` is exactly the three octets `a`, `b`, `c`.
fn eq3(s: &[u8], a: u8, b: u8, c: u8) -> (r: bool)
    ensures
        r == (s@ == seq![a, b, c]),
{
    if s.len() != 3 {
        return false;
    }
    let r = s[0] == a && s[1] == b && s[2] == c;
    proof {
        if s@[0] == a && s@[1] == b && s@[2] == c {
            assert(s@ =~= seq![a, b, c]);
        }
    }
    r
}

/// Whether `s` is exactly the five octets `a` through `e`.
fn eq5(s: &[u8], a: u8, b: u8, c: u8, d: u8, e: u8) -> (r: bool)
    ensures
        r == (s@ == seq![a, b, c, d, e]),
{
    if s.len() != 5 {
        return false;
    }
    let r = s[0] == a && s[1] == b && s[2] == c && s[3] == d && s[4] == e;
    proof {
        if s@[0] == a && s@[1] == b && s@[2] == c && s@[3] == d && s@[4] == e {
            assert(s@ =~= seq![a, b, c, d, e]);
        }
    }
    r
}

impl RRType {
    /// Map a textual type name, given as its octets, to a record type;
    /// `None` when the name is not in the supported enumeration.
    pub fn from_name(s: &[u8]) -> (r: Option<RRType>)
        ensures
            r == rrtype_from_name(s@),
    {
        if eq1(s, 65) {
            Some(RRType::A)
        } else if eq2(s, 78, 83) {
            Some(RRType::NS)
        } else if eq5(s, 67, 78, 65, 77, 69) {
            Some(RRType::CNAME)
        } else if eq3(s, 83, 79, 65) {
            Some(RRType::SOA)
        } else if eq3(s, 80, 84, 82) {
            Some(RRType::PTR)
        } else if eq2(s, 77, 88) {
            Some(RRType::MX)
        } else if eq3(s, 84, 88, 84) {
            Some(RRType::TXT)
        } else {
            None
        }
    }
}

impl Class {
    /// The numeric wire value of this record class.
    pub fn code(&self) -> (r: u16)
        ensures
            r == class_code(*self),
    {
        match self {
            Class::IN => 1,
            Class::CS => 2,
            Class::CH => 3,
            Class::HS => 4,
        }
    }

    /// Map a numeric wire value to a record class; `None` when the value is
    /// outside the supported enumeration.
    pub fn from_u16(v: u16) -> (r: Option<Class>)
        ensures
            r == class_from_code(v as int),
    {
        match v {
            1 => Some(Class::IN),
            2 => Some(Class::CS),
            3 => Some(Class::CH),
            4 => Some(Class::HS),
            _ => None,
        }
    }
}

/// The value of a big-endian 32-bit time-to-live read at `offset`,
/// interpreted through the raw bit pattern of a signed 32-bit integer.
pub open spec fn ttl_of(b0: u8, b1: u8, b2: u8, b3: u8) -> int {
    let v = combine16(b0, b1) * 0x10000 + combine16(b2, b3);
    if v < 0x8000_0000 {
        v
    } else {
        v - 0x1_0000_0000
    }
}

/// Read a record's 32-bit big-endian time-to-live at `offset`. The value is
/// the raw 32-bit pattern reinterpreted as signed; no range check is made.
pub fn extract_ttl(bytes: &[u8], offset: usize) -> (r: i32)
    requires
        offset + 4 <= bytes@.len(),
    ensures
        r == ttl_of(
            bytes@[offset as int],
            bytes@[offset + 1],
            bytes@[offset + 2],
            bytes@[offset + 3],
        ),
{
    let hi = byte_combine(bytes[offset], bytes[offset + 1]);
    let lo = byte_combine(bytes[offset + 2], bytes[offset + 3]);
    let v: u32 = (hi as u32) * 0x10000 + (lo as u32);
    if v < 0x8000_0000 {
        v as i32
    } else {
        ((v as i64) - 0x1_0000_0000i64) as i32
    }
}

/// The mathematical content of a decoded resource record.
pub ghost struct RRView {
    pub name: Seq<Seq<u8>>,
    pub rrtype: RRType,
    pub class: Class,
    pub ttl: int,
    pub rdlength: int,
    pub rdata: Seq<u8>,
}

/// A resource record decoded from a response: owner name, type, class,
/// time-to-live, and the opaque rdata payload whose length `rdlength`
/// always equals the number of rdata octets.
pub struct RR {
    pub name: Vec<Vec<u8>>,
    pub rrtype: RRType,
    pub class: Class,
    pub ttl: i32,
    pub rdlength: u16,
    pub rdata: Vec<u8>,
}

impl View for RR {
    type V = RRView;

    open spec fn view(&self) -> RRView {
        RRView {
            name: labels_of(self.name@),
            rrtype: self.rrtype,
            class: self.class,
            ttl: self.ttl as int,
            rdlength: self.rdlength as int,
            rdata: self.rdata@,
        }
    }
}

/// What decoding a resource record at `offset` yields: the record and the
/// offset just past its rdata, or the first failure met while reading the
/// name, the fixed fields, and the rdata in wire order.
pub open spec fn decode_rr_spec(buf: Seq<u8>, offset: int) -> Result<(RRView, int), DnsError> {
    match decode_name_spec(buf, offset) {
        Err(e) => Err(e),
        Ok((nm, o)) => {
            if o + 2 > buf.len() {
                Err(DnsError::TruncatedMessage)
            } else {
                match rrtype_from_code(combine16(buf[o], buf[o + 1])) {
                    None => Err(DnsError::UnknownRecordType),
                    Some(t) => {
                        if o + 4 > buf.len() {
                            Err(DnsError::TruncatedMessage)
                        } else {
                            match class_from_code(combine16(buf[o + 2], buf[o + 3])) {
                                None => Err(DnsError::UnknownRecordClass),
                                Some(c) => {
                                    if o + 10 > buf.len() {
                                        Err(DnsError::TruncatedMessage)
                                    } else {
                                        let rdlen = combine16(buf[o + 8], buf[o + 9]);
                                        if o + 10 + rdlen > buf.len() {
                                            Err(DnsError::TruncatedRecord)
                                        } else {
                                            Ok(
                                                (
                                                    RRView {
                                                        name: nm,
                                                        rrtype: t,
                                                        class: c,
                                                        ttl: ttl_of(
                                                            buf[o + 4],
                                                            buf[o + 5],
                                                            buf[o + 6],
                                                            buf[o + 7],
                                                        ),
                                                        rdlength: rdlen,
                                                        rdata: buf.subrange(o + 10, o + 10 + rdlen),
                                                    },
                                                    o + 10 + rdlen,
                                                ),
                                            )
                                        }
                                    }
                                }
                            }
                        }
                    }
                }
            }
        },
    }
}

/// A record decoded with success keeps the documented length invariant:
/// its `rdlength` equals the number of its rdata octets, and the record
/// ends within the buffer.
pub proof fn lemma_decoded_rr_wf(buf: Seq<u8>, offset: int)
    requires
        decode_rr_spec(buf, offset) is Ok,
    ensures
        decode_rr_spec(buf, offset)->Ok_0.0.rdata.len() == decode_rr_spec(buf, offset)->Ok_0.0.rdlength,
        decode_rr_spec(buf, offset)->Ok_0.1 <= buf.len(),
{
    match decode_name_spec(buf, offset) {
        Ok((nm, o)) => {
            lemma_decode_name_end(buf, offset, buf.len());
            assert(0 <= o <= buf.len());
        },
        Err(_) => {},
    }
}

/// A name decoded with success ends past its first octet and within the
/// buffer.
pub proof fn lemma_decode_name_end(buf: Seq<u8>, offset: int, fuel: nat)
    requires
        crate::name::decode_name_rec(buf, offset, fuel) is Ok,
    ensures
        0 <= offset < buf.len(),
        offset + 1 <= crate::name::decode_name_rec(buf, offset, fuel)->Ok_0.1 <= buf.len(),
    decreases fuel, buf.len() - offset,
{
    let tag = buf[offset];
    if tag == 0 {
    } else if tag < 64 {
        lemma_decode_name_end(buf, offset + 1 + tag, fuel);
    } else {
    }
}

impl RR {
    /// Decode one resource record at `offset`: the owner name (direct or
    /// compressed), the fixed type, class, time-to-live and rdata-length
    /// fields, then exactly `rdlength` octets of opaque rdata. Returns the
    /// record and the offset just past it.
    pub fn from_wire(buf: &[u8], offset: usize) -> (r: Result<(RR, usize), DnsError>)
        ensures
            match r {
                Ok((rr, end)) => decode_rr_spec(buf@, offset as int) == Ok::<
                    (RRView, int),
                    DnsError,
                >((rr@, end as int)),
                Err(e) => decode_rr_spec(buf@, offset as int) == Err::<(RRView, int), DnsError>(e),
            },
    {
        let (name, o) = match extract_name(buf, offset) {
            Ok(p) => p,
            Err(e) => {
                return Err(e);
            },
        };
        proof {
            lemma_decode_name_end(buf@, offset as int, buf@.len());
        }
        if buf.len() - o < 2 {
            return Err(DnsError::TruncatedMessage);
        }
        let rrtype = match RRType::from_u16(byte_combine(buf[o], buf[o + 1])) {
            Some(t) => t,
            None => {
                return Err(DnsError::UnknownRecordType);
            },
        };
        if buf.len() - o < 4 {
            return Err(DnsError::TruncatedMessage);
        }
        let class = match Class::from_u16(byte_combine(buf[o + 2], buf[o + 3])) {
            Some(c) => c,
            None => {
                return Err(DnsError::UnknownRecordClass);
            },
        };
        if buf.len() - o < 10 {
            return Err(DnsError::TruncatedMessage);
        }
        let ttl = extract_ttl(buf, o + 4);
        let rdlength = byte_combine(buf[o + 8], buf[o + 9]);
        if (rdlength as usize) > buf.len() - (o + 10) {
            return Err(DnsError::TruncatedRecord);
        }
        let rdata = vstd::slice::slice_to_vec(
            vstd::slice::slice_subrange(buf, o + 10, o + 10 + rdlength as usize),
        );
        let rr = RR { name, rrtype, class, ttl, rdlength, rdata };
        Ok((rr, o + 10 + rdlength as usize))
    }
}

/// One dotted decimal quad: the four octets at `idx`, separated by dots and
/// closed by a line break.
pub open spec fn quad_text(rdata: Seq<u8>, idx: int) -> Seq<char> {
    decimal_of(rdata[idx] as nat) + seq!['.'] + decimal_of(rdata[idx + 1] as nat) + seq!['.']
        + decimal_of(rdata[idx + 2] as nat) + seq!['.'] + decimal_of(rdata[idx + 3] as nat) + seq![
        '\n',
    ]
}

/// `todo` dotted quads rendered from `rdata` starting at `idx`, one line
/// each.
pub open spec fn a_text(rdata: Seq<u8>, idx: int, todo: nat) -> Seq<char>
    decreases todo,
{
    if todo == 0 {
        Seq::empty()
    } else {
        quad_text(rdata, idx) + a_text(rdata, idx + 4, (todo - 1) as nat)
    }
}

/// Every octet rendered in decimal, with no separators.
pub open spec fn plain_text(rdata: Seq<u8>) -> Seq<char>
    decreases rdata.len(),
{
    if rdata.len() == 0 {
        Seq::empty()
    } else {
        decimal_of(rdata[0] as nat) + plain_text(rdata.drop_first())
    }
}

/// The text rendering of a record's payload. An address record is shown as
/// dot-separated decimal quads, one address per line, a trailing group of
/// fewer than four octets silently left out; any other type is shown as its
/// raw octet values in decimal.
pub open spec fn rdata_text(rr: RRView) -> Seq<char> {
    if rr.rrtype == RRType::A {
        a_text(rr.rdata, 0, (rr.rdlength / 4) as nat)
    } else {
        plain_text(rr.rdata)
    }
}

/// The characters of one label, each octet read as the character with its
/// value.
pub open spec fn label_text(l: Seq<u8>) -> Seq<char> {
    l.map(|i: int, b: u8| b as char)
}

/// A name's labels joined by dots. The root name renders as the empty text.
pub open spec fn name_text(name: Seq<Seq<u8>>) -> Seq<char>
    decreases name.len(),
{
    if name.len() == 0 {
        Seq::empty()
    } else if name.len() == 1 {
        label_text(name[0])
    } else {
        label_text(name[0]) + seq!['.'] + name_text(name.drop_first())
    }
}

/// Appending a label to a name's text puts a dot before it unless the name
/// was empty.
proof fn lemma_name_text_snoc(name: Seq<Seq<u8>>, label: Seq<u8>)
    ensures
        name_text(name.push(label)) == if name.len() == 0 {
            label_text(label)
        } else {
            name_text(name) + seq!['.'] + label_text(label)
        },
    decreases name.len(),
{
    let whole = name.push(label);
    if name.len() == 0 {
        assert(whole[0] == label);
    } else if name.len() == 1 {
        assert(whole[0] == name[0]);
        assert(whole.drop_first() =~= seq![label]);
        assert(name_text(seq![label]) == label_text(label));
        assert(name_text(whole) =~= name_text(name) + seq!['.'] + label_text(label));
    } else {
        assert(whole[0] == name[0]);
        assert(whole.drop_first() =~= name.drop_first().push(label));
        lemma_name_text_snoc(name.drop_first(), label);
        assert(name_text(whole) =~= name_text(name) + seq!['.'] + label_text(label));
    }
}

/// The display name of a record type.
pub open spec fn rrtype_text(t: RRType) -> Seq<char> {
    match t {
        RRType::A => seq!['A'],
        RRType::NS => seq!['N', 'S'],
        RRType::CNAME => seq!['C', 'N', 'A', 'M', 'E'],
        RRType::SOA => seq!['S', 'O', 'A'],
        RRType::PTR => seq!['P', 'T', 'R'],
        RRType::MX => seq!['M', 'X'],
        RRType::TXT => seq!['T', 'X', 'T'],
    }
}

/// The display name of a record class.
pub open spec fn class_text(c: Class) -> Seq<char> {
    match c {
        Class::IN => seq!['I', 'N'],
        Class::CS => seq!['C', 'S'],
        Class::CH => seq!['C', 'H'],
        Class::HS => seq!['H', 'S'],
    }
}

impl RRType {
    /// The display name of this record type.
    pub fn name_str(&self) -> (s: &'static str)
        ensures
            s@ == rrtype_text(*self),
    {
        proof {
            reveal_strlit("A");
            reveal_strlit("NS");
            reveal_strlit("CNAME");
            reveal_strlit("SOA");
            reveal_strlit("PTR");
            reveal_strlit("MX");
            reveal_strlit("TXT");
        }
        let s: &'static str = match self {
            RRType::A => "A",
            RRType::NS => "NS",
            RRType::CNAME => "CNAME",
            RRType::SOA => "SOA",
            RRType::PTR => "PTR",
            RRType::MX => "MX",
            RRType::TXT => "TXT",
        };
        assert(s@ =~= rrtype_text(*self));
        s
    }
}

impl Class {
    /// The display name of this record class.
    pub fn name_str(&self) -> (s: &'static str)
        ensures
            s@ == class_text(*self),
    {
        proof {
            reveal_strlit("IN");
            reveal_strlit("CS");
            reveal_strlit("CH");
            reveal_strlit("HS");
        }
        let s: &'static str = match self {
            Class::IN => "IN",
            Class::CS => "CS",
            Class::CH => "CH",
            Class::HS => "HS",
        };
        assert(s@ =~= class_text(*self));
        s
    }
}

/// Relies on String::push: it appends exactly the given character to the
/// string and nothing else.
#[verifier::external_body]
fn push_char(out: &mut String, c: char)
    ensures
        final(out)@ == old(out)@ + seq![c],
{
    out.push(c);
}

/// Append a name's labels to `out`, joined by dots.
fn push_name_text(out: &mut String, name: &Vec<Vec<u8>>)
    ensures
        final(out)@ == old(out)@ + name_text(labels_of(name@)),
{
    let ghost model = labels_of(name@);
    proof {
        assert(model.take(0) =~= Seq::<Seq<u8>>::empty());
        assert(old(out)@ + name_text(model.take(0)) =~= old(out)@);
    }
    let mut i: usize = 0;
    while i < name.len()
        invariant
            i <= name@.len(),
            model == labels_of(name@),
            out@ == old(out)@ + name_text(model.take(i as int)),
        decreases name@.len() - i,
    {
        if i > 0 {
            proof {
                reveal_strlit(".");
                assert("."@ =~= seq!['.']);
            }
            out.append(".");
        }
        let label = &name[i];
        assert(label@ == model[i as int]);
        let ghost base = out@;
        let mut k: usize = 0;
        while k < label.len()
            invariant
                k <= label@.len(),
                out@ == base + label_text(label@.take(k as int)),
            decreases label@.len() - k,
        {
            push_char(out, label[k] as char);
            assert(label_text(label@.take(k + 1)) =~= label_text(label@.take(k as int)) + seq![
                label@[k as int] as char,
            ]);
            k = k + 1;
        }
        proof {
            assert(label@.take(label@.len() as int) =~= label@);
            lemma_name_text_snoc(model.take(i as int), model[i as int]);
            assert(model.take(i + 1) =~= model.take(i as int).push(model[i as int]));
            assert(out@ == old(out)@ + name_text(model.take(i + 1)));
        }
        i = i + 1;
    }
    assert(model.take(name@.len() as int) =~= model);
}

/// The full textual rendering of a record: name, type, class, time-to-live
/// and payload length on one tab-separated line, then the payload text.
pub open spec fn rr_text(rr: RRView) -> Seq<char> {
    name_text(rr.name) + seq!['\t'] + rrtype_text(rr.rrtype) + seq!['\t'] + class_text(rr.class)
        + seq!['\t'] + seq!['T', 'T', 'L', ':', ' '] + signed_decimal_of(rr.ttl) + seq![
        ',',
        ' ',
        'R',
        'D',
        'L',
        'E',
        'N',
        ':',
        ' ',
    ] + decimal_of(rr.rdlength as nat) + seq!['\n'] + rdata_text(rr)
}

impl RR {
    /// Render this record as display text: its name, type, class,
    /// time-to-live and payload length, then its payload.
    pub fn render(&self) -> (s: String)
        requires
            self.rdata@.len() == self.rdlength as int,
        ensures
            s@ == rr_text(self@),
    {
        let mut out = String::new();
        push_name_text(&mut out, &self.name);
        proof {
            reveal_strlit("\t");
            reveal_strlit("TTL: ");
            reveal_strlit(", RDLEN: ");
            reveal_strlit("\n");
            assert("\t"@ =~= seq!['\t']);
            assert("TTL: "@ =~= seq!['T', 'T', 'L', ':', ' ']);
            assert(", RDLEN: "@ =~= seq![',', ' ', 'R', 'D', 'L', 'E', 'N', ':', ' ']);
            assert("\n"@ =~= seq!['\n']);
        }
        out.append("\t");
        out.append(self.rrtype.name_str());
        out.append("\t");
        out.append(self.class.name_str());
        out.append("\t");
        out.append("TTL: ");
        push_signed_decimal(&mut out, self.ttl);
        out.append(", RDLEN: ");
        push_decimal(&mut out, self.rdlength as u32);
        out.append("\n");
        let rd = format_rdata(self);
        out.append(rd.as_str());
        assert(out@ =~= rr_text(self@));
        out
    }
}

/// Render a record's payload as text: dotted decimal quads for an address
/// record, raw decimal octet values otherwise.
pub fn format_rdata(rr: &RR) -> (s: String)
    requires
        rr.rdata@.len() == rr.rdlength as int,
    ensures
        s@ == rdata_text(rr@),
{
    let mut out = String::new();
    match rr.rrtype {
        RRType::A => {
            let groups: u16 = rr.rdlength / 4;
            proof {
                assert(4 * (rr.rdlength as int / 4) <= rr.rdlength as int) by {
                    vstd::arithmetic::div_mod::lemma_fundamental_div_mod(rr.rdlength as int, 4);
                }
            }
            let mut done: u16 = 0;
            while done < groups
                invariant
                    done <= groups,
                    groups == rr.rdlength / 4,
                    rr.rdata@.len() == rr.rdlength as int,
                    4 * (groups as int) <= rr.rdata@.len(),
                    out@ + a_text(rr.rdata@, 4 * done as int, (groups - done) as nat) == a_text(
                        rr.rdata@,
                        0,
                        groups as nat,
                    ),
                decreases groups - done,
            {
                let ghost start = out@;
                let idx: usize = (done as usize) * 4;
                proof {
                    reveal_strlit(".");
                    reveal_strlit("\n");
                    assert("."@ =~= seq!['.']);
                    assert("\n"@ =~= seq!['\n']);
                }
                push_decimal(&mut out, rr.rdata[idx] as u32);
                out.append(".");
                push_decimal(&mut out, rr.rdata[idx + 1] as u32);
                out.append(".");
                push_decimal(&mut out, rr.rdata[idx + 2] as u32);
                out.append(".");
                push_decimal(&mut out, rr.rdata[idx + 3] as u32);
                out.append("\n");
                proof {
                    assert(out@ =~= start + quad_text(rr.rdata@, idx as int));
                    assert(out@ + a_text(rr.rdata@, 4 * (done + 1) as int, (groups - done
                        - 1) as nat) =~= start + a_text(
                        rr.rdata@,
                        4 * done as int,
                        (groups - done) as nat,
                    ));
                }
                done = done + 1;
            }
            assert(out@ + Seq::<char>::empty() =~= out@);
        },
        _ => {
            proof {
                assert(rr.rdata@.skip(0) =~= rr.rdata@);
                assert(out@ + plain_text(rr.rdata@) =~= plain_text(rr.rdata@));
            }
            let mut i: usize = 0;
            while i < rr.rdata.len()
                invariant
                    i <= rr.rdata@.len(),
                    out@ + plain_text(rr.rdata@.skip(i as int)) == plain_text(rr.rdata@),
                decreases rr.rdata@.len() - i,
            {
                proof {
                    assert(rr.rdata@.skip(i as int).drop_first() =~= rr.rdata@.skip(i + 1));
                    assert(rr.rdata@.skip(i as int)[0] == rr.rdata@[i as int]);
                }
                let ghost start = out@;
                push_decimal(&mut out, rr.rdata[i] as u32);
                proof {
                    assert(out@ + plain_text(rr.rdata@.skip(i + 1)) =~= start + plain_text(
                        rr.rdata@.skip(i as int),
                    ));
                }
                i = i + 1;
            }
            proof {
                assert(rr.rdata@.skip(rr.rdata@.len() as int) =~= Seq::<u8>::empty());
                assert(out@ + Seq::<char>::empty() =~= out@);
            }
        },
    }
    out
}

} // verus!
