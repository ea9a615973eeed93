use vstd::prelude::*;
use arrayvec::ArrayVec;
use byteorder::BigEndian;
use byteorder::ByteOrder;
use smallvec::SmallVec;
use crate::wire::DataView;
use crate::wire::MessageView;
use crate::wire::QuestionView;
use crate::wire::RecordView;
use crate::wire::Emitter;
use crate::wire;
use vstd::slice::slice_subrange;
use vstd::slice::slice_to_vec;

verus! {

/// Why a byte string is not a message, or a message has no encoding.
#[derive(Debug, PartialEq, Eq, Clone, Copy, Structural)]
pub enum Error {
    /// The bytes end inside the header or inside a record.
    Truncated,
    /// A name runs past the end of the message, uses a reserved label type,
    /// points outside the message or in a circle, or is longer than 255 octets.
    MalformedName,
    /// A question asks for a type this codec does not know.
    UnknownQType,
    /// A question asks in a class other than IN.
    UnknownQClass,
    /// An address record does not carry exactly four octets.
    Parse,
    /// The message holds a name, a record or a section that the wire format
    /// cannot express.
    Unencodable,
}

/// The record types a question may ask for.
#[derive(Debug, PartialEq, Eq, Clone, Copy, Structural)]
#[allow(non_camel_case_types)]
pub enum QuestionType {
    A,
    NS,
    MD,
    MF,
    CNAME,
    SOA,
    MB,
    MG,
    MR,
    NULL,
    WKS,
    PTR,
    HINFO,
    MINFO,
    MX,
    TXT,
    SRV,
    IXFR,
    AXFR,
    ALL,
}

impl QuestionType {
    /// The 16-bit code of the type on the wire.
    pub open spec fn code_spec(self) -> u16 {
        match self {
            QuestionType::A => 0x01,
            QuestionType::NS => 0x02,
            QuestionType::MD => 0x03,
            QuestionType::MF => 0x04,
            QuestionType::CNAME => 0x05,
            QuestionType::SOA => 0x06,
            QuestionType::MB => 0x07,
            QuestionType::MG => 0x08,
            QuestionType::MR => 0x09,
            QuestionType::NULL => 0x0a,
            QuestionType::WKS => 0x0b,
            QuestionType::PTR => 0x0c,
            QuestionType::HINFO => 0x0d,
            QuestionType::MINFO => 0x0e,
            QuestionType::MX => 0x0f,
            QuestionType::TXT => 0x10,
            QuestionType::SRV => 0x21,
            QuestionType::IXFR => 0xfb,
            QuestionType::AXFR => 0xfc,
            QuestionType::ALL => 0xff,
        }
    }

    /// The type that a code on the wire stands for.  Nine codes are read;
    /// every other code is unknown.
    pub open spec fn from_code(i: u16) -> Option<QuestionType> {
        if i == 0x01 {
            Some(QuestionType::A)
        } else if i == 0x02 {
            Some(QuestionType::NS)
        } else if i == 0x05 {
            Some(QuestionType::CNAME)
        } else if i == 0x0c {
            Some(QuestionType::PTR)
        } else if i == 0x0f {
            Some(QuestionType::MX)
        } else if i == 0x21 {
            Some(QuestionType::SRV)
        } else if i == 0xfb {
            Some(QuestionType::IXFR)
        } else if i == 0xfc {
            Some(QuestionType::AXFR)
        } else if i == 0xff {
            Some(QuestionType::ALL)
        } else {
            None
        }
    }

    /// Whether the type is one that a question on the wire can carry.
    pub open spec fn readable(self) -> bool {
        Self::from_code(self.code_spec()) == Some(self)
    }

    /// The 16-bit code on the wire.
    pub fn code(self) -> (c: u16)
        ensures
            c == self.code_spec(),
    {
        match self {
            QuestionType::A => 0x01,
            QuestionType::NS => 0x02,
            QuestionType::MD => 0x03,
            QuestionType::MF => 0x04,
            QuestionType::CNAME => 0x05,
            QuestionType::SOA => 0x06,
            QuestionType::MB => 0x07,
            QuestionType::MG => 0x08,
            QuestionType::MR => 0x09,
            QuestionType::NULL => 0x0a,
            QuestionType::WKS => 0x0b,
            QuestionType::PTR => 0x0c,
            QuestionType::HINFO => 0x0d,
            QuestionType::MINFO => 0x0e,
            QuestionType::MX => 0x0f,
            QuestionType::TXT => 0x10,
            QuestionType::SRV => 0x21,
            QuestionType::IXFR => 0xfb,
            QuestionType::AXFR => 0xfc,
            QuestionType::ALL => 0xff,
        }
    }

    /// The type that a code on the wire stands for, if it is one that is read.
    pub fn new(i: u16) -> (t: Option<QuestionType>)
        ensures
            t == Self::from_code(i),
            t matches Some(q) ==> q.code_spec() == i,
    {
        match i {
            0x01 => Some(QuestionType::A),
            0x02 => Some(QuestionType::NS),
            0x05 => Some(QuestionType::CNAME),
            0x0c => Some(QuestionType::PTR),
            0x0f => Some(QuestionType::MX),
            0x21 => Some(QuestionType::SRV),
            0xfb => Some(QuestionType::IXFR),
            0xfc => Some(QuestionType::AXFR),
            0xff => Some(QuestionType::ALL),
            _ => None,
        }
    }
}

/// The class of a question: the Internet, and nothing else.
#[derive(Debug, PartialEq, Eq, Clone, Copy, Structural)]
pub enum QuestionClass {
    IN,
}

impl QuestionClass {
    /// The 16-bit code of the class on the wire.
    pub open spec fn code_spec(self) -> u16 {
        0x01
    }

    /// The class that a code on the wire stands for.
    pub open spec fn from_code(i: u16) -> Option<QuestionClass> {
        if i == 0x01 {
            Some(QuestionClass::IN)
        } else {
            None
        }
    }

    /// The 16-bit code on the wire.
    pub fn code(self) -> (c: u16)
        ensures
            c == self.code_spec(),
    {
        0x01
    }

    /// The class that a code on the wire stands for, if it is IN.
    pub fn new(i: u16) -> (c: Option<QuestionClass>)
        ensures
            c == Self::from_code(i),
    {
        match i {
            0x01 => Some(QuestionClass::IN),
            _ => None,
        }
    }
}

/// The most octets that a label has.
pub const LABEL_MAX_LENGTH: usize = 63;

/// The most octets that a name has in dotted form.
pub const NAMES_MAX_LENGTH: usize = 255;

/// The vector of the `arrayvec` crate, made known so that it can stand in
/// fields and signatures.  Nothing inside it is seen.
#[verifier::external_type_specification]
#[verifier::external_body]
#[verifier::reject_recursive_types(T)]
pub struct ExArrayVec<T, const CAP: usize>(ArrayVec<T, CAP>);

/// A domain name in dotted form, labels joined by `.`, held in place.
pub type Name = ArrayVec<u8, 256>;

/// The octets that a name holds, first to last.
pub uninterp spec fn name_octets(n: ArrayVec<u8, 256>) -> Seq<u8>;

/// `ArrayVec::new`: a vector that holds nothing.
#[verifier::external_body]
fn name_new() -> (n: Name)
    ensures
        name_octets(n) == Seq::<u8>::empty(),
{
    ArrayVec::new()
}

/// `ArrayVec::push`: the element is put after the last one.  The vector
/// must have room, for a full one makes the call panic.
#[verifier::external_body]
fn name_push(n: &mut Name, b: u8)
    requires
        name_octets(*old(n)).len() < 256,
    ensures
        name_octets(*final(n)) == name_octets(*old(n)).push(b),
{
    n.push(b)
}

/// `ArrayVec::as_slice`: the elements as a slice.
#[verifier::external_body]
fn name_slice(n: &Name) -> (s: &[u8])
    ensures
        s@ == name_octets(*n),
{
    n.as_slice()
}

/// `ArrayVec::clone`: a vector of the same elements.
#[verifier::external_body]
fn name_clone(n: &Name) -> (c: Name)
    ensures
        name_octets(c) == name_octets(*n),
{
    n.clone()
}

/// `ByteOrder::read_u16` of `BigEndian`: the first two octets as a number,
/// the high octet first.  Fewer than two octets make the call panic.
#[verifier::external_body]
fn be_read_u16(buf: &[u8]) -> (n: u16)
    requires
        buf@.len() >= 2,
    ensures
        n == u16_at(buf@, 0),
{
    BigEndian::read_u16(buf)
}

/// `ByteOrder::read_i32` of `BigEndian`: the first four octets as a number
/// in two's complement, the high octet first.  Fewer than four octets make
/// the call panic.
#[verifier::external_body]
fn be_read_i32(buf: &[u8]) -> (n: i32)
    requires
        buf@.len() >= 4,
    ensures
        n == i32_at(buf@, 0),
{
    BigEndian::read_i32(buf)
}

/// `ByteOrder::write_u16` of `BigEndian`: the number in two octets, the high
/// octet first.
#[verifier::external_body]
fn be_write_u16(buf: &mut [u8; 2], n: u16)
    ensures
        final(buf)@ == u16_octets(n),
{
    BigEndian::write_u16(buf, n)
}

/// `ByteOrder::write_i32` of `BigEndian`: the number in four octets, in
/// two's complement, the high octet first.
#[verifier::external_body]
fn be_write_i32(buf: &mut [u8; 4], n: i32)
    ensures
        final(buf)@ == i32_octets(n),
{
    BigEndian::write_i32(buf, n)
}

/// The number that two octets at `pos` spell, the high octet first.
pub open spec fn u16_at(b: Seq<u8>, pos: int) -> u16 {
    (b[pos] * 256 + b[pos + 1]) as u16
}

/// A number below 2^32 read as two's complement.
pub open spec fn signed32(u: int) -> int {
    if u < 0x8000_0000 {
        u
    } else {
        u - 0x1_0000_0000
    }
}

/// A 32-bit number as the number below 2^32 that has its bits.
pub open spec fn unsigned32(i: int) -> int {
    if i < 0 {
        i + 0x1_0000_0000
    } else {
        i
    }
}

/// The number that four octets at `pos` spell in two's complement, the high
/// octet first.
pub open spec fn i32_at(b: Seq<u8>, pos: int) -> i32 {
    signed32(b[pos] * 0x100_0000 + b[pos + 1] * 0x1_0000 + b[pos + 2] * 0x100 + b[pos + 3]) as i32
}

/// The two octets of a number, the high octet first.
pub open spec fn u16_octets(n: u16) -> Seq<u8> {
    seq![(n / 256) as u8, (n % 256) as u8]
}

/// The four octets of a number in two's complement, the high octet first.
pub open spec fn i32_octets(n: i32) -> Seq<u8> {
    let u = unsigned32(n as int);
    seq![
        (u / 0x100_0000) as u8,
        ((u / 0x1_0000) % 256) as u8,
        ((u / 0x100) % 256) as u8,
        (u % 256) as u8,
    ]
}


/// A question: whose records, of which type, in which class.
#[derive(Debug)]
pub struct Question {
    pub q_name: Name,
    pub q_type: QuestionType,
    pub q_class: QuestionClass,
}

impl View for Question {
    type V = QuestionView;

    open spec fn view(&self) -> QuestionView {
        QuestionView { name: name_octets(self.q_name), qtype: self.q_type, qclass: self.q_class }
    }
}

impl Clone for Question {
    fn clone(&self) -> (c: Question)
        ensures
            c@ == self@,
    {
        Question { q_name: name_clone(&self.q_name), q_type: self.q_type, q_class: self.q_class }
    }
}

/// What a record says: an IPv4 address, or octets that are passed on unread.
#[derive(Debug)]
pub enum ResourceData {
    A([u8; 4]),
    Bytes(Vec<u8>),
}

impl View for ResourceData {
    type V = DataView;

    open spec fn view(&self) -> DataView {
        match self {
            ResourceData::A(a) => DataView::A(a@),
            ResourceData::Bytes(b) => DataView::Bytes(b@),
        }
    }
}

impl Clone for ResourceData {
    fn clone(&self) -> (c: ResourceData)
        ensures
            c@ == self@,
    {
        match self {
            ResourceData::A(a) => ResourceData::A(*a),
            ResourceData::Bytes(b) => ResourceData::Bytes(b.clone()),
        }
    }
}

/// A resource record.  The time to live is kept as the signed number that
/// the wire carries.
#[derive(Debug)]
pub struct ResourceRecord {
    pub r_name: Name,
    pub r_type: u16,
    pub r_class: u16,
    pub r_ttl: i32,
    pub r_data: ResourceData,
}

impl View for ResourceRecord {
    type V = RecordView;

    open spec fn view(&self) -> RecordView {
        RecordView {
            name: name_octets(self.r_name),
            rtype: self.r_type,
            rclass: self.r_class,
            ttl: self.r_ttl,
            data: self.r_data@,
        }
    }
}

impl Clone for ResourceRecord {
    fn clone(&self) -> (c: ResourceRecord)
        ensures
            c@ == self@,
    {
        ResourceRecord {
            r_name: name_clone(&self.r_name),
            r_type: self.r_type,
            r_class: self.r_class,
            r_ttl: self.r_ttl,
            r_data: self.r_data.clone(),
        }
    }
}

/// The questions of a message, the first two of them held in place.
#[derive(Debug)]
#[verifier::external_body]
pub struct QuestionList {
    items: SmallVec<[Question; 2]>,
}

/// The records of one section of a message, the first eight of them held
/// in place.
#[derive(Debug)]
#[verifier::external_body]
pub struct RecordList {
    items: SmallVec<[ResourceRecord; 8]>,
}

/// The questions that a list holds, first to last, each as its view.
pub uninterp spec fn question_items(l: QuestionList) -> Seq<QuestionView>;

/// The records that a list holds, first to last, each as its view.
pub uninterp spec fn record_items(l: RecordList) -> Seq<RecordView>;

/// `SmallVec::new`: a vector that holds nothing.
#[verifier::external_body]
fn questions_new() -> (l: QuestionList)
    ensures
        question_items(l).len() == 0,
{
    QuestionList { items: SmallVec::new() }
}

/// `SmallVec::push`: the item is put after the last one.
#[verifier::external_body]
fn questions_push(l: &mut QuestionList, q: Question)
    ensures
        question_items(*final(l)) == question_items(*old(l)).push(q@),
{
    l.items.push(q)
}

/// `SmallVec::as_slice`: the items as a slice.
#[verifier::external_body]
fn questions_slice(l: &QuestionList) -> (s: &[Question])
    ensures
        question_views(s@) == question_items(*l),
{
    l.items.as_slice()
}

/// `SmallVec::new`: a vector that holds nothing.
#[verifier::external_body]
fn records_new() -> (l: RecordList)
    ensures
        record_items(l).len() == 0,
{
    RecordList { items: SmallVec::new() }
}

/// `SmallVec::push`: the item is put after the last one.
#[verifier::external_body]
fn records_push(l: &mut RecordList, r: ResourceRecord)
    ensures
        record_items(*final(l)) == record_items(*old(l)).push(r@),
{
    l.items.push(r)
}

/// `SmallVec::as_slice`: the items as a slice.
#[verifier::external_body]
fn records_slice(l: &RecordList) -> (s: &[ResourceRecord])
    ensures
        record_views(s@) == record_items(*l),
{
    l.items.as_slice()
}

/// The views of questions, each in its place.
pub open spec fn question_views(qs: Seq<Question>) -> Seq<QuestionView> {
    Seq::new(qs.len(), |i: int| qs[i]@)
}

/// The views of records, each in its place.
pub open spec fn record_views(rs: Seq<ResourceRecord>) -> Seq<RecordView> {
    Seq::new(rs.len(), |i: int| rs[i]@)
}

/// A DNS message.  The counts of its sections are not stored: they are the
/// lengths of the lists when the message is written.
#[derive(Debug)]
pub struct Message {
    pub tx_id: u16,
    pub flags: u16,
    pub questions: QuestionList,
    pub answers: RecordList,
    pub name_server: RecordList,
    pub additional: RecordList,
}

impl View for Message {
    type V = MessageView;

    open spec fn view(&self) -> MessageView {
        MessageView {
            tx_id: self.tx_id,
            flags: self.flags,
            questions: question_items(self.questions),
            answers: record_items(self.answers),
            name_server: record_items(self.name_server),
            additional: record_items(self.additional),
        }
    }
}

/// The flag bit that tells a response from a query.
pub const FLAG_RESPONSE: u16 = 0x8000;

/// The flag bit of an authoritative answer.
pub const FLAG_AUTH_ANSWER: u16 = 0x0400;

/// The flag bit of a truncated message.
pub const FLAG_TRUNCATED: u16 = 0x0200;

/// The flag bit that asks for recursion.
pub const FLAG_RECURSION_DESIRED: u16 = 0x0100;

/// The flag bit that offers recursion.
pub const FLAG_RECURSION_AVAILABLE: u16 = 0x0080;

/// The flags word with the bit `bit` switched on or off.
pub open spec fn with_flag(flags: u16, bit: u16, on: bool) -> u16 {
    if on {
        flags | bit
    } else {
        flags & !bit
    }
}

impl MessageView {
    /// A message without items.
    pub open spec fn bare(tx_id: u16, flags: u16) -> MessageView {
        MessageView {
            tx_id,
            flags,
            questions: Seq::empty(),
            answers: Seq::empty(),
            name_server: Seq::empty(),
            additional: Seq::empty(),
        }
    }
}

impl Message {
    /// A message without items, transaction id and flags zero.
    pub fn default() -> (m: Message)
        ensures
            m@ == MessageView::bare(0, 0),
    {
        let m = Message {
            tx_id: 0,
            flags: 0,
            questions: questions_new(),
            answers: records_new(),
            name_server: records_new(),
            additional: records_new(),
        };
        assert(m@.questions =~= Seq::empty());
        assert(m@.answers =~= Seq::empty());
        assert(m@.name_server =~= Seq::empty());
        assert(m@.additional =~= Seq::empty());
        m
    }

    /// A message without items.
    pub fn create(tx_id: u16, flags: u16) -> (m: Message)
        ensures
            m@ == MessageView::bare(tx_id, flags),
    {
        let mut m = Message::default();
        m.tx_id = tx_id;
        m.flags = flags;
        m
    }

    /// The questions.
    pub fn questions(&self) -> (s: &[Question])
        ensures
            question_views(s@) == self@.questions,
    {
        questions_slice(&self.questions)
    }

    /// The answers.
    pub fn answers(&self) -> (s: &[ResourceRecord])
        ensures
            record_views(s@) == self@.answers,
    {
        records_slice(&self.answers)
    }

    /// The authority records.
    pub fn name_server(&self) -> (s: &[ResourceRecord])
        ensures
            record_views(s@) == self@.name_server,
    {
        records_slice(&self.name_server)
    }

    /// The additional records.
    pub fn additional(&self) -> (s: &[ResourceRecord])
        ensures
            record_views(s@) == self@.additional,
    {
        records_slice(&self.additional)
    }

    /// Whether the response bit is off.
    pub fn is_query(&self) -> (b: bool)
        ensures
            b == (self.flags & FLAG_RESPONSE == 0),
    {
        (self.flags & FLAG_RESPONSE) == 0
    }

    /// Switches the response bit off.
    pub fn set_query(&mut self)
        ensures
            *final(self) == (Message { flags: with_flag(old(self).flags, FLAG_RESPONSE, false), ..*old(self) }),
    {
        self.flags = self.flags & !FLAG_RESPONSE;
    }

    /// Whether the response bit is on.
    pub fn is_response(&self) -> (b: bool)
        ensures
            b == (self.flags & FLAG_RESPONSE != 0),
    {
        !self.is_query()
    }

    /// Switches the response bit on.
    pub fn set_response(&mut self)
        ensures
            *final(self) == (Message { flags: with_flag(old(self).flags, FLAG_RESPONSE, true), ..*old(self) }),
    {
        self.flags = self.flags | FLAG_RESPONSE;
    }

    /// Whether the answer is authoritative.
    pub fn is_auth_answer(&self) -> (b: bool)
        ensures
            b == (self.flags & FLAG_AUTH_ANSWER != 0),
    {
        (self.flags & FLAG_AUTH_ANSWER) != 0
    }

    /// Switches the bit of an authoritative answer.
    pub fn set_auth_answer(&mut self, on: bool)
        ensures
            *final(self) == (Message { flags: with_flag(old(self).flags, FLAG_AUTH_ANSWER, on), ..*old(self) }),
    {
        if on {
            self.flags = self.flags | FLAG_AUTH_ANSWER;
        } else {
            self.flags = self.flags & !FLAG_AUTH_ANSWER;
        }
    }

    /// Whether the message was truncated.
    pub fn is_truncated(&self) -> (b: bool)
        ensures
            b == (self.flags & FLAG_TRUNCATED != 0),
    {
        (self.flags & FLAG_TRUNCATED) != 0
    }

    /// Switches the bit of a truncated message.
    pub fn set_truncated(&mut self, on: bool)
        ensures
            *final(self) == (Message { flags: with_flag(old(self).flags, FLAG_TRUNCATED, on), ..*old(self) }),
    {
        if on {
            self.flags = self.flags | FLAG_TRUNCATED;
        } else {
            self.flags = self.flags & !FLAG_TRUNCATED;
        }
    }

    /// Whether recursion is asked for.
    pub fn is_recursion_desired(&self) -> (b: bool)
        ensures
            b == (self.flags & FLAG_RECURSION_DESIRED != 0),
    {
        (self.flags & FLAG_RECURSION_DESIRED) != 0
    }

    /// Switches the bit that asks for recursion.
    pub fn set_recursion_desired(&mut self, on: bool)
        ensures
            *final(self) == (Message {
                flags: with_flag(old(self).flags, FLAG_RECURSION_DESIRED, on),
                ..*old(self)
            }),
    {
        if on {
            self.flags = self.flags | FLAG_RECURSION_DESIRED;
        } else {
            self.flags = self.flags & !FLAG_RECURSION_DESIRED;
        }
    }

    /// Whether recursion is offered.
    pub fn recursion_available(&self) -> (b: bool)
        ensures
            b == (self.flags & FLAG_RECURSION_AVAILABLE != 0),
    {
        (self.flags & FLAG_RECURSION_AVAILABLE) != 0
    }

    /// Switches the bit that offers recursion.
    pub fn set_recursion_available(&mut self, on: bool)
        ensures
            *final(self) == (Message {
                flags: with_flag(old(self).flags, FLAG_RECURSION_AVAILABLE, on),
                ..*old(self)
            }),
    {
        if on {
            self.flags = self.flags | FLAG_RECURSION_AVAILABLE;
        } else {
            self.flags = self.flags & !FLAG_RECURSION_AVAILABLE;
        }
    }

    /// The response code: the four low bits of the flags.
    pub fn return_code(&self) -> (c: u16)
        ensures
            c == self.flags & 0x000f,
    {
        self.flags & 0x000f
    }

    /// The operation code: the four bits below the response bit.
    pub fn opcode(&self) -> (c: u16)
        ensures
            c == (self.flags & 0x7800) >> 11,
    {
        (self.flags & 0x7800) >> 11
    }
}


/// A cursor over the octets of one message.
pub struct Parser<'a> {
    bytes: &'a [u8],
    pos: usize,
}

impl<'a> Parser<'a> {
    /// The octets of the message.
    pub closed spec fn msg(&self) -> Seq<u8> {
        self.bytes@
    }

    /// Where the cursor stands.
    pub closed spec fn position(&self) -> int {
        self.pos as int
    }

    /// The cursor is inside the message or at its end.
    pub open spec fn wf(&self) -> bool {
        0 <= self.position() <= self.msg().len()
    }

    /// A cursor at the start of `b`.
    pub fn new(b: &'a [u8]) -> (p: Parser<'a>)
        ensures
            p.wf(),
            p.msg() == b@,
            p.position() == 0,
    {
        Parser { bytes: b, pos: 0 }
    }

    /// Reads two octets as a number, the high octet first.
    fn read_u16(&mut self) -> (r: Result<u16, Error>)
        requires
            old(self).wf(),
        ensures
            final(self).wf(),
            final(self).msg() == old(self).msg(),
            old(self).position() + 2 <= old(self).msg().len() ==> r == Ok::<u16, Error>(
                u16_at(old(self).msg(), old(self).position()),
            ) && final(self).position() == old(self).position() + 2,
            old(self).position() + 2 > old(self).msg().len() ==> r == Err::<u16, Error>(
                Error::Truncated,
            ) && final(self).position() == old(self).position(),
    {
        if self.bytes.len() - self.pos < 2 {
            return Err(Error::Truncated);
        }
        let n = be_read_u16(slice_subrange(self.bytes, self.pos, self.pos + 2));
        self.pos = self.pos + 2;
        Ok(n)
    }

    /// Reads four octets as a signed number, the high octet first.
    fn read_i32(&mut self) -> (r: Result<i32, Error>)
        requires
            old(self).wf(),
        ensures
            final(self).wf(),
            final(self).msg() == old(self).msg(),
            old(self).position() + 4 <= old(self).msg().len() ==> r == Ok::<i32, Error>(
                i32_at(old(self).msg(), old(self).position()),
            ) && final(self).position() == old(self).position() + 4,
            old(self).position() + 4 > old(self).msg().len() ==> r == Err::<i32, Error>(
                Error::Truncated,
            ) && final(self).position() == old(self).position(),
    {
        if self.bytes.len() - self.pos < 4 {
            return Err(Error::Truncated);
        }
        let n = be_read_i32(slice_subrange(self.bytes, self.pos, self.pos + 4));
        self.pos = self.pos + 4;
        Ok(n)
    }

    /// The octet under the cursor, if there is one.
    fn peek_u8(&self) -> (r: Option<u8>)
        requires
            self.wf(),
        ensures
            r == if self.position() < self.msg().len() {
                Some(self.msg()[self.position()])
            } else {
                None
            },
    {
        if self.pos >= self.bytes.len() {
            None
        } else {
            Some(self.bytes[self.pos])
        }
    }

    /// Reads the label under the cursor and puts it behind what `s` holds,
    /// after a `.` if `s` holds anything.
    fn read_label(&mut self, s: &mut Name) -> (r: Result<(), Error>)
        requires
            old(self).wf(),
            old(self).position() < old(self).msg().len(),
            name_octets(*old(s)).len() <= 255,
        ensures
            final(self).wf(),
            final(self).msg() == old(self).msg(),
            match wire::label_step(old(self).msg(), old(self).position(), name_octets(*old(s))) {
                Ok((grown, next)) => r is Ok && name_octets(*final(s)) == grown && final(self).position() == next,
                Err(e) => r == Err::<(), Error>(e),
            },
    {
        let c = self.bytes[self.pos];
        let len = c as usize;
        if len > LABEL_MAX_LENGTH || self.bytes.len() - self.pos - 1 < len {
            return Err(Error::MalformedName);
        }
        let held = name_slice(s).len();
        let dot: usize = if held == 0 {
            0
        } else {
            1
        };
        if held + dot + len > NAMES_MAX_LENGTH {
            return Err(Error::MalformedName);
        }
        if held != 0 {
            name_push(s, wire::DOT);
        }
        let start = self.pos + 1;
        let ghost before = name_octets(*s);
        let mut i: usize = 0;
        while i < len
            invariant
                0 <= i <= len,
                start + len <= self.bytes.len(),
                before.len() + len <= 255,
                name_octets(*s) == before + self.bytes@.subrange(start as int, start + i),
            decreases len - i,
        {
            name_push(s, self.bytes[start + i]);
            assert(self.bytes@.subrange(start as int, start + i + 1) == self.bytes@.subrange(
                start as int,
                start + i,
            ).push(self.bytes@[start + i]));
            i = i + 1;
        }
        self.pos = start + len;
        proof {
            let label = self.bytes@.subrange(start as int, start + len);
            assert(before + label == wire::join(name_octets(*old(s)), label));
        }
        Ok(())
    }

    /// Reads the name under the cursor into `s`, behind what `s` holds,
    /// following pointers, and leaves the cursor behind the name.
    #[verifier::rlimit(40)]
    pub fn parse_encoded_string(&mut self, s: &mut Name) -> (r: Result<(), Error>)
        requires
            old(self).wf(),
            name_octets(*old(s)).len() <= 255,
        ensures
            final(self).wf(),
            final(self).msg() == old(self).msg(),
            match wire::walk(
                old(self).msg(),
                old(self).position(),
                name_octets(*old(s)),
                old(self).msg().len(),
                None,
            ) {
                Ok((name, next)) => r is Ok && name_octets(*final(s)) == name && final(self).position() == next,
                Err(e) => r == Err::<(), Error>(e),
            },
    {
        let ghost goal = wire::walk(
            self.msg(),
            self.position(),
            name_octets(*s),
            self.msg().len(),
            None,
        );
        let mut hops: usize = self.bytes.len();
        let mut back: Option<usize> = None;
        loop
            invariant
                self.wf(),
                self.msg() == old(self).msg(),
                name_octets(*s).len() <= 255,
                back matches Some(b) ==> b <= self.bytes@.len(),
                goal == wire::walk(
                    old(self).msg(),
                    old(self).position(),
                    name_octets(*old(s)),
                    old(self).msg().len(),
                    None,
                ),
                goal == wire::walk(
                    self.msg(),
                    self.position(),
                    name_octets(*s),
                    hops as nat,
                    match back {
                        Some(b) => Some(b as int),
                        None => None,
                    },
                ),
            decreases hops, self.bytes@.len() - self.pos,
        {
            match self.peek_u8() {
                None => {
                    return Err(Error::MalformedName);
                },
                Some(c) => {
                    if c == 0 {
                        assert(self.pos < self.bytes.len());
                        self.pos = match back {
                            Some(b) => b,
                            None => self.pos + 1,
                        };
                        return Ok(());
                    } else if c >= 192 {
                        if self.bytes.len() - self.pos < 2 {
                            return Err(Error::MalformedName);
                        }
                        let low = self.bytes[self.pos + 1];
                        let target: usize = (c as usize - 192) * 256 + low as usize;
                        if target >= self.bytes.len() || hops == 0 {
                            return Err(Error::MalformedName);
                        }
                        if back.is_none() {
                            back = Some(self.pos + 2);
                        }
                        hops = hops - 1;
                        self.pos = target;
                    } else {
                        let ghost at = self.position();
                        match self.read_label(s) {
                            Err(e) => {
                                return Err(e);
                            },
                            Ok(()) => {
                                assert(self.position() > at);
                            },
                        }
                    }
                },
            }
        }
    }
    /// Reads the question under the cursor.
    pub fn parse_question(&mut self) -> (r: Result<Question, Error>)
        requires
            old(self).wf(),
        ensures
            final(self).wf(),
            final(self).msg() == old(self).msg(),
            match wire::parse_question(old(self).msg(), old(self).position()) {
                Ok((q, next)) => r is Ok && r->Ok_0@ == q && final(self).position() == next,
                Err(e) => r is Err && r->Err_0 == e,
            },
    {
        let mut name = name_new();
        match self.parse_encoded_string(&mut name) {
            Err(e) => {
                return Err(e);
            },
            Ok(()) => {},
        }
        let q_type = match self.read_u16() {
            Err(e) => {
                return Err(e);
            },
            Ok(code) => match QuestionType::new(code) {
                None => {
                    return Err(Error::UnknownQType);
                },
                Some(t) => t,
            },
        };
        let q_class = match self.read_u16() {
            Err(e) => {
                return Err(e);
            },
            Ok(code) => match QuestionClass::new(code) {
                None => {
                    return Err(Error::UnknownQClass);
                },
                Some(c) => c,
            },
        };
        Ok(Question { q_name: name, q_type, q_class })
    }

    /// Reads the four octets of an address.
    fn read_ipv4(&mut self) -> (r: Result<[u8; 4], Error>)
        requires
            old(self).wf(),
        ensures
            final(self).wf(),
            final(self).msg() == old(self).msg(),
            old(self).position() + 4 <= old(self).msg().len() ==> r is Ok && r->Ok_0@
                == old(self).msg().subrange(old(self).position(), old(self).position() + 4)
                && final(self).position() == old(self).position() + 4,
            old(self).position() + 4 > old(self).msg().len() ==> r is Err && r->Err_0
                == Error::Truncated,
    {
        if self.bytes.len() - self.pos < 4 {
            return Err(Error::Truncated);
        }
        let a = self.bytes[self.pos];
        let b = self.bytes[self.pos + 1];
        let c = self.bytes[self.pos + 2];
        let d = self.bytes[self.pos + 3];
        let addr = [a, b, c, d];
        assert(addr@ =~= self.bytes@.subrange(self.pos as int, self.pos + 4));
        self.pos = self.pos + 4;
        Ok(addr)
    }

    /// Reads `len` octets as they are.
    fn read_bytes(&mut self, len: u16) -> (r: Result<Vec<u8>, Error>)
        requires
            old(self).wf(),
        ensures
            final(self).wf(),
            final(self).msg() == old(self).msg(),
            old(self).position() + len <= old(self).msg().len() ==> r is Ok && r->Ok_0@
                == old(self).msg().subrange(old(self).position(), old(self).position() + len)
                && final(self).position() == old(self).position() + len,
            old(self).position() + len > old(self).msg().len() ==> r is Err && r->Err_0
                == Error::Truncated,
    {
        let n = len as usize;
        if self.bytes.len() - self.pos < n {
            return Err(Error::Truncated);
        }
        let mut v: Vec<u8> = Vec::with_capacity(n);
        let start = self.pos;
        let mut i: usize = 0;
        while i < n
            invariant
                0 <= i <= n,
                start + n <= self.bytes.len(),
                v@ == self.bytes@.subrange(start as int, start + i),
            decreases n - i,
        {
            v.push(self.bytes[start + i]);
            assert(self.bytes@.subrange(start as int, start + i + 1) == self.bytes@.subrange(
                start as int,
                start + i,
            ).push(self.bytes@[start + i]));
            i = i + 1;
        }
        self.pos = start + n;
        Ok(v)
    }

    /// Reads the resource record under the cursor.
    #[verifier::rlimit(40)]
    pub fn parse_resource_record(&mut self) -> (r: Result<ResourceRecord, Error>)
        requires
            old(self).wf(),
        ensures
            final(self).wf(),
            final(self).msg() == old(self).msg(),
            match wire::parse_record(old(self).msg(), old(self).position()) {
                Ok((rec, next)) => r is Ok && r->Ok_0@ == rec && final(self).position() == next,
                Err(e) => r is Err && r->Err_0 == e,
            },
    {
        let mut name = name_new();
        match self.parse_encoded_string(&mut name) {
            Err(e) => {
                return Err(e);
            },
            Ok(()) => {},
        }
        if self.bytes.len() - self.pos < 10 {
            return Err(Error::Truncated);
        }
        let ghost p = self.position();
        let t = match self.read_u16() {
            Err(e) => {
                return Err(e);
            },
            Ok(t) => t,
        };
        let class = match self.read_u16() {
            Err(e) => {
                return Err(e);
            },
            Ok(c) => c,
        };
        let ttl = match self.read_i32() {
            Err(e) => {
                return Err(e);
            },
            Ok(t) => t,
        };
        let rd_len = match self.read_u16() {
            Err(e) => {
                return Err(e);
            },
            Ok(l) => l,
        };
        assert(self.position() == p + 10);
        let rdata = if t == 1 {
            if rd_len != 4 {
                return Err(Error::Parse);
            }
            match self.read_ipv4() {
                Err(e) => {
                    return Err(e);
                },
                Ok(a) => ResourceData::A(a),
            }
        } else {
            match self.read_bytes(rd_len) {
                Err(e) => {
                    return Err(e);
                },
                Ok(b) => ResourceData::Bytes(b),
            }
        };
        Ok(ResourceRecord { r_name: name, r_type: t, r_class: class, r_ttl: ttl, r_data: rdata })
    }

    /// Reads `count` questions, one behind the other.
    fn parse_question_section(&mut self, count: u16) -> (r: Result<QuestionList, Error>)
        requires
            old(self).wf(),
        ensures
            final(self).wf(),
            final(self).msg() == old(self).msg(),
            match wire::parse_questions(old(self).msg(), old(self).position(), count as nat) {
                Ok((qs, next)) => r is Ok && question_items(r->Ok_0) == qs
                    && final(self).position() == next,
                Err(e) => r is Err && r->Err_0 == e,
            },
    {
        let mut list = questions_new();
        let ghost start = self.position();
        let mut i: u16 = 0;
        assert(question_items(list) =~= Seq::empty());
        while i < count
            invariant
                0 <= i <= count,
                self.wf(),
                self.msg() == old(self).msg(),
                start == old(self).position(),
                wire::parse_questions(self.msg(), start, i as nat) == Ok::<
                    (Seq<QuestionView>, int),
                    Error,
                >((question_items(list), self.position())),
            decreases count - i,
        {
            let ghost before = question_items(list);
            match self.parse_question() {
                Err(e) => {
                    proof {
                        wire::lemma_questions_fail_on(self.msg(), start, (i + 1) as nat, count as nat);
                    }
                    return Err(e);
                },
                Ok(q) => {
                    questions_push(&mut list, q);
                    assert(question_items(list) =~= before.push(
                        q@,
                    ));
                },
            }
            i = i + 1;
        }
        Ok(list)
    }

    /// Reads `count` records, one behind the other.
    fn parse_record_section(&mut self, count: u16) -> (r: Result<RecordList, Error>)
        requires
            old(self).wf(),
        ensures
            final(self).wf(),
            final(self).msg() == old(self).msg(),
            match wire::parse_records(old(self).msg(), old(self).position(), count as nat) {
                Ok((rs, next)) => r is Ok && record_items(r->Ok_0) == rs && final(self).position() == next,
                Err(e) => r is Err && r->Err_0 == e,
            },
    {
        let mut list = records_new();
        let ghost start = self.position();
        let mut i: u16 = 0;
        assert(record_items(list) =~= Seq::empty());
        while i < count
            invariant
                0 <= i <= count,
                self.wf(),
                self.msg() == old(self).msg(),
                start == old(self).position(),
                wire::parse_records(self.msg(), start, i as nat) == Ok::<
                    (Seq<RecordView>, int),
                    Error,
                >((record_items(list), self.position())),
            decreases count - i,
        {
            let ghost before = record_items(list);
            match self.parse_resource_record() {
                Err(e) => {
                    proof {
                        wire::lemma_records_fail_on(self.msg(), start, (i + 1) as nat, count as nat);
                    }
                    return Err(e);
                },
                Ok(rec) => {
                    records_push(&mut list, rec);
                    assert(record_items(list) =~= before.push(rec@));
                },
            }
            i = i + 1;
        }
        Ok(list)
    }

    /// Reads the message that `b` spells into `m`.  On failure `m` is left
    /// as it was.
    #[verifier::rlimit(40)]
    pub fn parse(m: &mut Message, b: &[u8]) -> (r: Result<(), Error>)
        ensures
            match wire::parse_message(b@) {
                Ok(v) => r is Ok && final(m)@ == v,
                Err(e) => r == Err::<(), Error>(e) && *final(m) == *old(m),
            },
    {
        reveal(wire::parse_message);
        let mut p = Parser::new(b);
        if b.len() < wire::HEADER_LEN {
            return Err(Error::Truncated);
        }
        let tx_id = match p.read_u16() {
            Err(e) => {
                return Err(e);
            },
            Ok(n) => n,
        };
        let flags = match p.read_u16() {
            Err(e) => {
                return Err(e);
            },
            Ok(n) => n,
        };
        let query_count = match p.read_u16() {
            Err(e) => {
                return Err(e);
            },
            Ok(n) => n,
        };
        let an_count = match p.read_u16() {
            Err(e) => {
                return Err(e);
            },
            Ok(n) => n,
        };
        let ns_count = match p.read_u16() {
            Err(e) => {
                return Err(e);
            },
            Ok(n) => n,
        };
        let ar_count = match p.read_u16() {
            Err(e) => {
                return Err(e);
            },
            Ok(n) => n,
        };
        let questions = match p.parse_question_section(query_count) {
            Err(e) => {
                return Err(e);
            },
            Ok(l) => l,
        };
        let answers = match p.parse_record_section(an_count) {
            Err(e) => {
                return Err(e);
            },
            Ok(l) => l,
        };
        let name_server = match p.parse_record_section(ns_count) {
            Err(e) => {
                return Err(e);
            },
            Ok(l) => l,
        };
        let additional = match p.parse_record_section(ar_count) {
            Err(e) => {
                return Err(e);
            },
            Ok(l) => l,
        };
        *m = Message { tx_id, flags, questions, answers, name_server, additional };
        Ok(())
    }

}


impl Message {
    /// The message that `b` spells.
    pub fn new(b: &[u8]) -> (r: Result<Message, Error>)
        ensures
            match wire::parse_message(b@) {
                Ok(v) => r is Ok && r->Ok_0@ == v,
                Err(e) => r is Err && r->Err_0 == e,
            },
    {
        let mut m = Message::default();
        match m.parse(b) {
            Err(e) => Err(e),
            Ok(()) => Ok(m),
        }
    }

    /// Makes this message the one that `b` spells.  On failure the message
    /// is left as it was.
    pub fn parse(&mut self, b: &[u8]) -> (r: Result<(), Error>)
        ensures
            match wire::parse_message(b@) {
                Ok(v) => r is Ok && final(self)@ == v,
                Err(e) => r == Err::<(), Error>(e) && *final(self) == *old(self),
            },
    {
        Parser::parse(self, b)
    }
}

/// The transaction id of a message, read from its first two octets.
pub fn parse_txn_id(bytes: &[u8]) -> (id: Option<u16>)
    ensures
        id == if bytes@.len() < 2 {
            None
        } else {
            Some(u16_at(bytes@, 0))
        },
{
    if bytes.len() < 2 {
        return None;
    }
    Some(be_read_u16(bytes))
}


/// Puts the two octets of `n` behind `out`.
fn put_u16(out: &mut Vec<u8>, n: u16)
    ensures
        final(out)@ == old(out)@ + u16_octets(n),
{
    let mut b = [0u8;2];
    be_write_u16(&mut b, n);
    out.push(b[0]);
    out.push(b[1]);
    assert(out@ =~= old(out)@ + u16_octets(n));
}

/// Puts the four octets of `n` behind `out`.
fn put_i32(out: &mut Vec<u8>, n: i32)
    ensures
        final(out)@ == old(out)@ + i32_octets(n),
{
    let mut b = [0u8;4];
    be_write_i32(&mut b, n);
    out.push(b[0]);
    out.push(b[1]);
    out.push(b[2]);
    out.push(b[3]);
    assert(out@ =~= old(out)@ + i32_octets(n));
}

/// Puts the octets `data[from..to)` behind `out`.
fn put_bytes(out: &mut Vec<u8>, data: &[u8], from: usize, to: usize)
    requires
        from <= to <= data@.len(),
    ensures
        final(out)@ == old(out)@ + data@.subrange(from as int, to as int),
{
    let mut i: usize = from;
    while i < to
        invariant
            from <= i <= to <= data@.len(),
            out@ == old(out)@ + data@.subrange(from as int, i as int),
        decreases to - i,
    {
        out.push(data[i]);
        assert(data@.subrange(from as int, i + 1) == data@.subrange(from as int, i as int).push(
            data@[i as int],
        ));
        i = i + 1;
    }
}

/// Whether two runs of octets are the same.
pub(crate) fn same_octets(a: &[u8], b: &[u8]) -> (same: bool)
    ensures
        same == (a@ == b@),
{
    if a.len() != b.len() {
        return false;
    }
    let mut i: usize = 0;
    while i < a.len()
        invariant
            0 <= i <= a@.len(),
            a@.len() == b@.len(),
            forall|j: int| 0 <= j < i ==> a@[j] == b@[j],
        decreases a@.len() - i,
    {
        if a[i] != b[i] {
            return false;
        }
        i = i + 1;
    }
    assert(a@ =~= b@);
    true
}

/// Where the label that starts at `from` ends: at the next `.` or at the
/// end of the name.
fn label_end(s: &[u8], from: usize) -> (k: usize)
    requires
        from <= s@.len(),
    ensures
        from <= k <= s@.len(),
        k - from == wire::first_dot(s@.skip(from as int)),
{
    let mut j: usize = from;
    while j < s.len() && s[j] != wire::DOT
        invariant
            from <= j <= s@.len(),
            forall|i: int| from <= i < j ==> s@[i] != wire::DOT,
        decreases s@.len() - j,
    {
        j = j + 1;
    }
    proof {
        let t = s@.skip(from as int);
        assert forall|i: int| 0 <= i < j - from implies t[i] != wire::DOT by {
            assert(t[i] == s@[from + i]);
        }
        wire::lemma_first_dot_skip(t, j - from);
        assert(t.skip(j - from) =~= s@.skip(j as int));
    }
    j
}

/// Whether the octets are a name: see `wire::name_ok`.
pub fn is_name(s: &[u8]) -> (ok: bool)
    ensures
        ok == wire::name_ok(s@),
{
    if s.len() > NAMES_MAX_LENGTH {
        return false;
    }
    if s.len() == 0 {
        return true;
    }
    let mut i: usize = 0;
    assert(s@.skip(0) =~= s@);
    loop
        invariant
            0 <= i <= s@.len(),
            0 < s@.len() <= 255,
            wire::labels_ok(s@) == wire::labels_ok(s@.skip(i as int)),
        decreases s@.len() - i,
    {
        let k = label_end(s, i);
        let len = k - i;
        if len < 1 || len > LABEL_MAX_LENGTH {
            return false;
        }
        if k == s.len() {
            return true;
        }
        assert(s@.skip(i as int).skip(len + 1) =~= s@.skip(k + 1));
        i = k + 1;
    }
}

/// Puts the name `s` behind `out`, written out in full.
fn write_encoded_string(s: &[u8], out: &mut Vec<u8>)
    requires
        wire::name_ok(s@),
    ensures
        final(out)@ == old(out)@ + wire::wire_name(s@),
{
    if s.len() == 0 {
        out.push(0);
        assert(out@ =~= old(out)@ + wire::wire_name(s@));
        return ;
    }
    let mut i: usize = 0;
    assert(s@.skip(0) =~= s@);
    loop
        invariant_except_break
            0 <= i <= s@.len(),
            s@.len() <= 255,
            wire::labels_ok(s@.skip(i as int)),
            old(out)@ + wire::wire_labels(s@) == out@ + wire::wire_labels(s@.skip(i as int)),
        ensures
            out@ == old(out)@ + wire::wire_labels(s@),
        decreases s@.len() - i,
    {
        let k = label_end(s, i);
        let len = k - i;
        let ghost rest = s@.skip(i as int);
        let ghost before = out@;
        out.push(len as u8);
        put_bytes(out, s, i, k);
        assert(rest.take(len as int) =~= s@.subrange(i as int, k as int));
        if k == s.len() {
            assert(rest.take(len as int) =~= rest);
            assert(out@ =~= before + wire::wire_labels(rest));
            break ;
        }
        assert(rest.skip(len + 1) =~= s@.skip(k + 1));
        assert(out@ + wire::wire_labels(s@.skip(k + 1)) =~= before + wire::wire_labels(rest));
        i = k + 1;
    }
    out.push(0);
    assert(out@ =~= old(out)@ + wire::wire_name(s@));
}

/// The names that the encoder has written out in full, each with its offset.
pub open spec fn table_view(t: Seq<(Vec<u8>, usize)>) -> Seq<(Seq<u8>, int)> {
    Seq::new(t.len(), |i: int| (t[i].0@, t[i].1 as int))
}

/// The encoder that an output and a name table stand for.
pub open spec fn emitter(out: Seq<u8>, labels: Seq<(Vec<u8>, usize)>) -> Emitter {
    Emitter { out, table: table_view(labels) }
}

/// The offset at which `name` was first written out in full, if it was.
fn find_offset(labels: &Vec<(Vec<u8>, usize)>, name: &[u8]) -> (r: Option<usize>)
    ensures
        wire::lookup(table_view(labels@), name@) == match r {
            Some(off) => Some(off as int),
            None => None,
        },
{
    let ghost tv = table_view(labels@);
    let mut i: usize = 0;
    assert(tv.skip(0) =~= tv);
    while i < labels.len()
        invariant
            0 <= i <= labels@.len(),
            tv == table_view(labels@),
            wire::lookup(tv, name@) == wire::lookup(tv.skip(i as int), name@),
        decreases labels@.len() - i,
    {
        assert(tv.skip(i as int)[0] == tv[i as int]);
        if same_octets(labels[i].0.as_slice(), name) {
            return Some(labels[i].1);
        }
        assert(tv.skip(i as int).skip(1) =~= tv.skip(i + 1));
        i = i + 1;
    }
    None
}

/// Puts a name behind `out`: a pointer to where it was written out before,
/// or the name in full, which is then noted in `labels` if a pointer can
/// reach it.
fn write_name(name: &[u8], out: &mut Vec<u8>, labels: &mut Vec<(Vec<u8>, usize)>)
    requires
        wire::name_ok(name@),
        wire::table_fits(table_view(old(labels)@)),
    ensures
        emitter(final(out)@, final(labels)@) == wire::emit_name(
            emitter(old(out)@, old(labels)@),
            name@,
        ),
        wire::table_fits(table_view(final(labels)@)),
{
    proof {
        wire::lemma_lookup_fits(table_view(labels@), name@);
    }
    match find_offset(labels, name) {
        Some(off) => {
            let word: u16 = (0xC000 + off) as u16;
            put_u16(out, word);
        },
        None => {
            let pos = out.len();
            write_encoded_string(name, out);
            if pos < wire::POINTER_LIMIT {
                let ghost before = table_view(labels@);
                labels.push((slice_to_vec(name), pos));
                assert(table_view(labels@) =~= before.push((name@, pos as int)));
            }
        },
    }
}

impl Question {
    /// Puts the question behind `out`.
    fn write(&self, out: &mut Vec<u8>, labels: &mut Vec<(Vec<u8>, usize)>)
        requires
            wire::question_ok(self@),
            wire::table_fits(table_view(old(labels)@)),
        ensures
            emitter(final(out)@, final(labels)@) == wire::emit_question(
                emitter(old(out)@, old(labels)@),
                self@,
            ),
            wire::table_fits(table_view(final(labels)@)),
    {
        write_name(name_slice(&self.q_name), out, labels);
        put_u16(out, self.q_type.code());
        put_u16(out, self.q_class.code());
    }

    /// Whether the question can be written and read back.
    fn is_ok(&self) -> (ok: bool)
        ensures
            ok == wire::question_ok(self@),
    {
        is_name(name_slice(&self.q_name)) && QuestionType::new(self.q_type.code()) == Some(
            self.q_type,
        )
    }
}

impl ResourceRecord {
    /// Puts the record behind `out`.
    fn write(&self, out: &mut Vec<u8>, labels: &mut Vec<(Vec<u8>, usize)>)
        requires
            wire::record_ok(self@),
            wire::table_fits(table_view(old(labels)@)),
        ensures
            emitter(final(out)@, final(labels)@) == wire::emit_record(
                emitter(old(out)@, old(labels)@),
                self@,
            ),
            wire::table_fits(table_view(final(labels)@)),
    {
        write_name(name_slice(&self.r_name), out, labels);
        put_u16(out, self.r_type);
        put_u16(out, self.r_class);
        put_i32(out, self.r_ttl);
        match &self.r_data {
            ResourceData::A(addr) => {
                put_u16(out, 4);
                put_bytes(out, addr.as_slice(), 0, 4);
                assert(addr@.subrange(0, 4) =~= addr@);
            },
            ResourceData::Bytes(bytes) => {
                put_u16(out, bytes.len() as u16);
                put_bytes(out, bytes.as_slice(), 0, bytes.len());
                assert(bytes@.subrange(0, bytes@.len() as int) =~= bytes@);
            },
        }
    }

    /// Whether the record can be written and read back.
    fn is_ok(&self) -> (ok: bool)
        ensures
            ok == wire::record_ok(self@),
    {
        if !is_name(name_slice(&self.r_name)) {
            return false;
        }
        match &self.r_data {
            ResourceData::A(_) => self.r_type == 1,
            ResourceData::Bytes(b) => self.r_type != 1 && b.len() <= 0xffff,
        }
    }
}


/// Whether a section of questions can be written and read back.
fn questions_ok(qs: &[Question]) -> (ok: bool)
    ensures
        ok == wire::questions_ok(question_views(qs@)),
{
    if qs.len() > 0xffff {
        return false;
    }
    let mut i: usize = 0;
    while i < qs.len()
        invariant
            0 <= i <= qs@.len(),
            forall|j: int| 0 <= j < i ==> wire::question_ok(#[trigger] question_views(qs@)[j]),
        decreases qs@.len() - i,
    {
        if !qs[i].is_ok() {
            assert(!wire::question_ok(question_views(qs@)[i as int]));
            return false;
        }
        i = i + 1;
    }
    true
}

/// Whether a section of records can be written and read back.
fn records_ok(rs: &[ResourceRecord]) -> (ok: bool)
    ensures
        ok == wire::records_ok(record_views(rs@)),
{
    if rs.len() > 0xffff {
        return false;
    }
    let mut i: usize = 0;
    while i < rs.len()
        invariant
            0 <= i <= rs@.len(),
            forall|j: int| 0 <= j < i ==> wire::record_ok(#[trigger] record_views(rs@)[j]),
        decreases rs@.len() - i,
    {
        if !rs[i].is_ok() {
            assert(!wire::record_ok(record_views(rs@)[i as int]));
            return false;
        }
        i = i + 1;
    }
    true
}

/// Puts a section of questions behind `out`.
fn write_questions(qs: &[Question], out: &mut Vec<u8>, labels: &mut Vec<(Vec<u8>, usize)>)
    requires
        wire::questions_ok(question_views(qs@)),
        wire::table_fits(table_view(old(labels)@)),
    ensures
        emitter(final(out)@, final(labels)@) == wire::emit_questions(
            emitter(old(out)@, old(labels)@),
            question_views(qs@),
        ),
        wire::table_fits(table_view(final(labels)@)),
{
    let ghost views = question_views(qs@);
    let ghost e0 = emitter(out@, labels@);
    let mut i: usize = 0;
    assert(views.take(0) =~= Seq::empty());
    while i < qs.len()
        invariant
            0 <= i <= qs@.len(),
            views == question_views(qs@),
            wire::questions_ok(views),
            wire::table_fits(table_view(labels@)),
            emitter(out@, labels@) == wire::emit_questions(e0, views.take(i as int)),
        decreases qs@.len() - i,
    {
        assert(wire::question_ok(views[i as int]));
        qs[i].write(out, labels);
        assert(views.take(i + 1).drop_last() =~= views.take(i as int));
        assert(views.take(i + 1).last() == views[i as int]);
        i = i + 1;
    }
    assert(views.take(i as int) =~= views);
}

/// Puts a section of records behind `out`.
fn write_records(rs: &[ResourceRecord], out: &mut Vec<u8>, labels: &mut Vec<(Vec<u8>, usize)>)
    requires
        wire::records_ok(record_views(rs@)),
        wire::table_fits(table_view(old(labels)@)),
    ensures
        emitter(final(out)@, final(labels)@) == wire::emit_records(
            emitter(old(out)@, old(labels)@),
            record_views(rs@),
        ),
        wire::table_fits(table_view(final(labels)@)),
{
    let ghost views = record_views(rs@);
    let ghost e0 = emitter(out@, labels@);
    let mut i: usize = 0;
    assert(views.take(0) =~= Seq::empty());
    while i < rs.len()
        invariant
            0 <= i <= rs@.len(),
            views == record_views(rs@),
            wire::records_ok(views),
            wire::table_fits(table_view(labels@)),
            emitter(out@, labels@) == wire::emit_records(e0, views.take(i as int)),
        decreases rs@.len() - i,
    {
        assert(wire::record_ok(views[i as int]));
        rs[i].write(out, labels);
        assert(views.take(i + 1).drop_last() =~= views.take(i as int));
        assert(views.take(i + 1).last() == views[i as int]);
        i = i + 1;
    }
    assert(views.take(i as int) =~= views);
}

impl Message {
    /// Whether the message has an encoding that reads back as the message.
    pub fn is_encodable(&self) -> (ok: bool)
        ensures
            ok == wire::message_ok(self@),
    {
        questions_ok(self.questions()) && records_ok(self.answers()) && records_ok(
            self.name_server(),
        ) && records_ok(self.additional())
    }

    /// The message on the wire: the header with the lengths of the four
    /// sections, then the sections, every name that was written before as a
    /// pointer.  A message that has no encoding is refused.
    #[verifier::rlimit(40)]
    pub fn write(&self) -> (r: Result<Vec<u8>, Error>)
        ensures
            r is Ok <==> wire::message_ok(self@),
            r matches Ok(v) ==> v@ == wire::emit_message(self@),
            r matches Err(e) ==> e == Error::Unencodable,
    {
        reveal(wire::emit_sections);
        if !self.is_encodable() {
            return Err(Error::Unencodable);
        }
        let mut out: Vec<u8> = Vec::new();
        put_u16(&mut out, self.tx_id);
        put_u16(&mut out, self.flags);
        put_u16(&mut out, self.questions().len() as u16);
        put_u16(&mut out, self.answers().len() as u16);
        put_u16(&mut out, self.name_server().len() as u16);
        put_u16(&mut out, self.additional().len() as u16);
        let mut labels: Vec<(Vec<u8>, usize)> = Vec::new();
        assert(out@ =~= wire::header_octets(self@));
        assert(table_view(labels@) =~= Seq::empty());
        write_questions(self.questions(), &mut out, &mut labels);
        write_records(self.answers(), &mut out, &mut labels);
        write_records(self.name_server(), &mut out, &mut labels);
        write_records(self.additional(), &mut out, &mut labels);
        Ok(out)
    }
}


/// A message in the making.  Nothing is encoded until the finished message
/// is written.
#[derive(Debug)]
pub struct MessageBuilder(Message);

impl View for MessageBuilder {
    type V = MessageView;

    closed spec fn view(&self) -> MessageView {
        self.0@
    }
}

/// The views of the records that a slice of borrowed records points at.
pub open spec fn borrowed_views(rs: Seq<&ResourceRecord>) -> Seq<RecordView> {
    Seq::new(rs.len(), |i: int| rs[i]@)
}

impl MessageBuilder {
    /// Starts from a message without items, transaction id and flags zero.
    pub fn new() -> (b: MessageBuilder)
        ensures
            b@ == MessageView::bare(0, 0),
    {
        MessageBuilder(Message::default())
    }

    /// Sets the transaction id.
    pub fn tx_id(self, tx_id: u16) -> (b: MessageBuilder)
        ensures
            b@ == (MessageView { tx_id, ..self@ }),
    {
        let mut m = self.0;
        m.tx_id = tx_id;
        MessageBuilder(m)
    }

    /// Marks the message as a response.
    pub fn response(self) -> (b: MessageBuilder)
        ensures
            b@ == (MessageView { flags: with_flag(self@.flags, FLAG_RESPONSE, true), ..self@ }),
    {
        let mut m = self.0;
        m.set_response();
        MessageBuilder(m)
    }

    /// Sets the flag that asks for recursion.
    pub fn recursion_desired(self) -> (b: MessageBuilder)
        ensures
            b@ == (MessageView {
                flags: with_flag(self@.flags, FLAG_RECURSION_DESIRED, true),
                ..self@
            }),
    {
        let mut m = self.0;
        m.set_recursion_desired(true);
        MessageBuilder(m)
    }

    /// Sets the flag that offers recursion.
    pub fn recursion_available(self) -> (b: MessageBuilder)
        ensures
            b@ == (MessageView {
                flags: with_flag(self@.flags, FLAG_RECURSION_AVAILABLE, true),
                ..self@
            }),
    {
        let mut m = self.0;
        m.set_recursion_available(true);
        MessageBuilder(m)
    }

    /// Makes copies of `questions` the questions of the message.
    pub fn questions(self, questions: &[Question]) -> (b: MessageBuilder)
        ensures
            b@ == (MessageView { questions: question_views(questions@), ..self@ }),
    {
        let mut m = self.0;
        let mut list = questions_new();
        let mut i: usize = 0;
        assert(question_items(list) =~= question_views(questions@).take(0));
        while i < questions.len()
            invariant
                0 <= i <= questions@.len(),
                question_items(list) == question_views(questions@).take(i as int),
            decreases questions@.len() - i,
        {
            let ghost before = question_items(list);
            let q = questions[i].clone();
            questions_push(&mut list, q);
            assert(question_items(list) =~= before.push(q@));
            assert(question_views(questions@).take(i + 1) =~= question_views(questions@).take(
                i as int,
            ).push(questions@[i as int]@));
            i = i + 1;
        }
        assert(question_views(questions@).take(i as int) =~= question_views(questions@));
        m.questions = list;
        MessageBuilder(m)
    }

    /// Puts a copy of `answer` behind the answers.
    pub fn answer(self, answer: &ResourceRecord) -> (b: MessageBuilder)
        ensures
            b@ == (MessageView { answers: self@.answers.push(answer@), ..self@ }),
    {
        let mut m = self.0;
        let ghost before = record_items(m.answers);
        let r = answer.clone();
        records_push(&mut m.answers, r);
        assert(record_items(m.answers) =~= before.push(r@));
        MessageBuilder(m)
    }

    /// Puts copies of `answers` behind the answers, in their order.
    pub fn answers(self, answers: &[&ResourceRecord]) -> (b: MessageBuilder)
        ensures
            b@ == (MessageView { answers: self@.answers + borrowed_views(answers@), ..self@ }),
    {
        let mut m = self.0;
        let ghost start = m@;
        let mut i: usize = 0;
        assert(start.answers + borrowed_views(answers@).take(0) =~= start.answers);
        while i < answers.len()
            invariant
                0 <= i <= answers@.len(),
                m@ == (MessageView {
                    answers: start.answers + borrowed_views(answers@).take(i as int),
                    ..start
                }),
            decreases answers@.len() - i,
        {
            let ghost before = record_items(m.answers);
            let r = answers[i].clone();
            records_push(&mut m.answers, r);
            assert(record_items(m.answers) =~= before.push(r@));
            assert(borrowed_views(answers@).take(i + 1) =~= borrowed_views(answers@).take(
                i as int,
            ).push(answers@[i as int]@));
            assert(start.answers + borrowed_views(answers@).take(i + 1) =~= (start.answers
                + borrowed_views(answers@).take(i as int)).push(r@));
            i = i + 1;
        }
        assert(borrowed_views(answers@).take(i as int) =~= borrowed_views(answers@));
        MessageBuilder(m)
    }

    /// The finished message.
    pub fn build(self) -> (r: Result<Message, Error>)
        ensures
            r is Ok,
            r->Ok_0@ == self@,
    {
        Ok(self.0)
    }
}


/// The text that `String::from_utf8_lossy` makes of octets.
pub uninterp spec fn lossy_text(bytes: Seq<u8>) -> Seq<char>;

/// `String::from_utf8_lossy`: the string that the octets spell.  Octets
/// that are UTF-8 come out as the characters they encode.  Of other octets
/// the contract says only that the same octets give the same text.
#[verifier::external_body]
fn lossy_string(bytes: &[u8]) -> (s: String)
    ensures
        s@ == lossy_text(bytes@),
        vstd::utf8::valid_utf8(bytes@) ==> s@ == vstd::utf8::decode_utf8(bytes@),
{
    String::from_utf8_lossy(bytes).into_owned()
}

/// The name that holds the octets `bytes`, if they are no more than 255.
pub fn to_name(bytes: &[u8]) -> (r: Option<Name>)
    ensures
        r is Some <==> bytes@.len() <= 255,
        r matches Some(n) ==> name_octets(n) == bytes@,
{
    if bytes.len() > NAMES_MAX_LENGTH {
        return None;
    }
    let mut n = name_new();
    let mut i: usize = 0;
    while i < bytes.len()
        invariant
            0 <= i <= bytes@.len() <= 255,
            name_octets(n) == bytes@.take(i as int),
        decreases bytes@.len() - i,
    {
        name_push(&mut n, bytes[i]);
        assert(bytes@.take(i + 1) =~= bytes@.take(i as int).push(bytes@[i as int]));
        i = i + 1;
    }
    assert(bytes@.take(i as int) =~= bytes@);
    Some(n)
}

impl Question {
    /// The question for the name spelled by `name`, if that is no more than
    /// 255 octets.
    pub fn new(name: &[u8], q_type: QuestionType, q_class: QuestionClass) -> (r: Option<Question>)
        ensures
            r is Some <==> name@.len() <= 255,
            r matches Some(q) ==> q@ == (QuestionView { name: name@, qtype: q_type, qclass: q_class }),
    {
        match to_name(name) {
            None => None,
            Some(n) => Some(Question { q_name: n, q_type, q_class }),
        }
    }

    /// The name in dotted form, as text.
    pub fn name(&self) -> (s: String)
        ensures
            s@ == lossy_text(self@.name),
            vstd::utf8::valid_utf8(self@.name) ==> s@ == vstd::utf8::decode_utf8(self@.name),
    {
        lossy_string(name_slice(&self.q_name))
    }

    /// The octets of the name in dotted form.
    pub fn name_bytes(&self) -> (s: &[u8])
        ensures
            s@ == self@.name,
    {
        name_slice(&self.q_name)
    }
}

impl ResourceRecord {
    /// The record for the name spelled by `name`, if that is no more than
    /// 255 octets.
    pub fn new(name: &[u8], r_type: u16, r_class: u16, r_ttl: i32, r_data: ResourceData) -> (r:
        Option<ResourceRecord>)
        ensures
            r is Some <==> name@.len() <= 255,
            r matches Some(rec) ==> rec@ == (RecordView {
                name: name@,
                rtype: r_type,
                rclass: r_class,
                ttl: r_ttl,
                data: r_data@,
            }),
    {
        match to_name(name) {
            None => None,
            Some(n) => Some(ResourceRecord { r_name: n, r_type, r_class, r_ttl, r_data }),
        }
    }

    /// The name in dotted form, as text.
    pub fn name(&self) -> (s: String)
        ensures
            s@ == lossy_text(self@.name),
            vstd::utf8::valid_utf8(self@.name) ==> s@ == vstd::utf8::decode_utf8(self@.name),
    {
        lossy_string(name_slice(&self.r_name))
    }

    /// The octets of the name in dotted form.
    pub fn name_bytes(&self) -> (s: &[u8])
        ensures
            s@ == self@.name,
    {
        name_slice(&self.r_name)
    }
}


impl Clone for Message {
    fn clone(&self) -> (c: Message)
        ensures
            c@ == self@,
    {
        let b = MessageBuilder::new().tx_id(self.tx_id).questions(self.questions());
        let mut m = b.0;
        m.flags = self.flags;
        m.answers = copy_records(self.answers());
        m.name_server = copy_records(self.name_server());
        m.additional = copy_records(self.additional());
        m
    }
}

/// A list of copies of `records`.
fn copy_records(records: &[ResourceRecord]) -> (list: RecordList)
    ensures
        record_items(list) == record_views(records@),
{
    let mut list = records_new();
    let mut i: usize = 0;
    assert(record_items(list) =~= record_views(records@).take(0));
    while i < records.len()
        invariant
            0 <= i <= records@.len(),
            record_items(list) == record_views(records@).take(i as int),
        decreases records@.len() - i,
    {
        let ghost before = record_items(list);
        let r = records[i].clone();
        records_push(&mut list, r);
        assert(record_items(list) =~= before.push(r@));
        assert(record_views(records@).take(i + 1) =~= record_views(records@).take(i as int).push(
            records@[i as int]@,
        ));
        i = i + 1;
    }
    assert(record_views(records@).take(i as int) =~= record_views(records@));
    list
}

} // verus!
