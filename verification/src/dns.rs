//! Looking a host name up: the display firmware asks a public resolver for the name's `A`
//! record with a one-question query, and takes the first answer that holds an IPv4 or IPv6
//! address. The DNS messages themselves are written and read by `dns_protocol`.
use vstd::prelude::*;
use vstd::string::StringSliceAdditionalSpecFns;

verus! {

/// The public resolver the firmware asks.
pub const RESOLVER_IP: [u8; 4] = [1u8, 1u8, 1u8, 1u8];

/// The DNS port, on the resolver and on the firmware's side.
pub const DNS_PORT: u16 = 53;

/// The identifier of the firmware's queries.
pub const QUERY_ID: u16 = 0xFEE7;

/// The record type the firmware asks for (`A`, an IPv4 address).
pub const QUERY_TYPE_A: u16 = 1;

/// The class the firmware asks in (`IN`, the Internet).
pub const QUERY_CLASS_IN: u16 = 1;

/// The size of the buffer the query is written into.
pub const QUERY_CAPACITY: usize = 500;

/// How many questions a response may carry.
pub const QUESTION_SLOTS: usize = 1;

/// How many records of each section a response may carry.
pub const RECORD_SLOTS: usize = 16;

/// The byte `.`, which separates the labels of a name.
pub open spec fn is_dot(b: u8) -> bool {
    b == 46u8
}

/// The length of the label that `s` ends with (the bytes after its last dot).
pub open spec fn run_at_end(s: Seq<u8>) -> nat
    decreases s.len(),
{
    if s.len() == 0 || is_dot(s.last()) {
        0
    } else {
        run_at_end(s.drop_last()) + 1
    }
}

/// The wire length of the labels of a name, without the final zero byte: each non-empty
/// label between dots takes its length plus one; empty labels are left out.
pub open spec fn labels_wire_len(s: Seq<u8>) -> nat
    decreases s.len(),
{
    if s.len() == 0 {
        0
    } else if is_dot(s.last()) {
        labels_wire_len(s.drop_last())
    } else if run_at_end(s.drop_last()) == 0 {
        labels_wire_len(s.drop_last()) + 2
    } else {
        labels_wire_len(s.drop_last()) + 1
    }
}

/// Every label of the name has at most 63 bytes.
pub open spec fn labels_short(s: Seq<u8>) -> bool {
    forall|i: int| 0 <= i <= s.len() ==> #[trigger] run_at_end(s.take(i)) <= 63
}

/// The wire length of a one-question query for the name: the 12-byte header, the labels,
/// the zero byte that ends the name, and the type and class.
pub open spec fn query_wire_len(s: Seq<u8>) -> nat {
    12 + labels_wire_len(s) + 1 + 4
}

/// The names the firmware can ask for: labels of at most 63 bytes, and a query that fits the
/// query buffer. On other names it panics.
pub open spec fn query_encodable(s: Seq<u8>) -> bool {
    labels_short(s) && query_wire_len(s) <= QUERY_CAPACITY
}

/// The index of the first dot at or after `i`, or the length of `s` when there is none.
pub open spec fn dot_from(s: Seq<u8>, i: int) -> int
    decreases s.len() - i,
{
    if i < 0 || i >= s.len() {
        s.len() as int
    } else if is_dot(s[i]) {
        i
    } else {
        dot_from(s, i + 1)
    }
}

/// The search for a dot from `i` stays between `i` and the length.
pub proof fn lemma_dot_from(s: Seq<u8>, i: int)
    requires
        0 <= i <= s.len(),
    ensures
        i <= dot_from(s, i) <= s.len(),
        dot_from(s, i) < s.len() ==> is_dot(s[dot_from(s, i)]),
        forall|k: int| i <= k < dot_from(s, i) ==> !is_dot(s[k]),
    decreases s.len() - i,
{
    if i < s.len() && !is_dot(s[i]) {
        lemma_dot_from(s, i + 1);
    }
}

/// The labels of a name on the wire: each non-empty label between dots as its length
/// followed by its bytes; empty labels are left out.
pub open spec fn labels_wire(s: Seq<u8>) -> Seq<u8>
    decreases s.len(),
{
    if s.len() == 0 {
        Seq::empty()
    } else {
        let d = dot_from(s, 0);
        proof {
            lemma_dot_from(s, 0);
        }
        let head = if d > 0 {
            seq![d as u8] + s.take(d)
        } else {
            Seq::empty()
        };
        if d < s.len() {
            head + labels_wire(s.skip(d + 1))
        } else {
            head
        }
    }
}

/// A 16-bit number on the wire, most significant byte first.
pub open spec fn be16(v: u16) -> Seq<u8> {
    seq![(v / 256) as u8, (v % 256) as u8]
}

/// The query `dns_protocol` writes for a message with the identifier `id`, the flags of a
/// standard query (0x0100: recursion desired), one question for `name` with type `ty` and
/// class `class`, and no records: the header, the labels, the zero byte that ends the name,
/// the type and the class.
pub open spec fn dns_query_wire(name: Seq<u8>, id: u16, ty: u16, class: u16) -> Seq<u8> {
    be16(id) + seq![1u8, 0u8, 0u8, 1u8, 0u8, 0u8, 0u8, 0u8, 0u8, 0u8] + labels_wire(name) + seq![
        0u8,
    ] + be16(ty) + be16(class)
}

/// The record data of the answer slots after `dns_protocol` reads `response` with
/// `questions` question slots and `records` slots for each record section, or `None` when
/// it rejects the response. Slots the response does not fill have empty data.
pub uninterp spec fn dns_answer_slots(response: Seq<u8>, questions: usize, records: usize) -> Option<
    Seq<Seq<u8>>,
>;

/// The error type of `dns_protocol`.
#[verifier::external_type_specification]
#[verifier::external_body]
pub struct ExDnsError(dns_protocol::Error);

/// Writes a query with `dns_protocol`: `Question::new(name, ty, class)` in a
/// `Message::new(id, Flags::standard_query(), ..)` with no records, written by
/// `Message::write` into a buffer of `capacity` bytes, of which the written prefix is kept.
/// Claimed, from the crate's source: the write does not panic when the message fits the
/// buffer; it fails when a label is longer than 63 bytes; it succeeds for type 1 (`A`) and
/// short labels; what it writes is `dns_query_wire`.
#[verifier::external_body]
fn write_query(name: &str, id: u16, ty: u16, class: u16, capacity: usize) -> (res: Result<
    Vec<u8>,
    dns_protocol::Error,
>)
    requires
        query_wire_len(name.spec_bytes()) <= capacity,
    ensures
        !labels_short(name.spec_bytes()) ==> res is Err,
        (labels_short(name.spec_bytes()) && ty == 1) ==> res is Ok,
        res matches Ok(bytes) ==> bytes@ == dns_query_wire(name.spec_bytes(), id, ty, class),
{
    let ty = dns_protocol::ResourceType::try_from(ty)?;
    let mut questions = [dns_protocol::Question::new(name, ty, class)];
    let message = dns_protocol::Message::new(
        id,
        dns_protocol::Flags::standard_query(),
        &mut questions,
        &mut [],
        &mut [],
        &mut [],
    );
    let mut buffer = vec![0u8; capacity];
    let len = message.write(&mut buffer)?;
    buffer.truncate(len);
    Ok(buffer)
}

/// Reads a response with `dns_protocol::Message::read`, into `questions` question slots and
/// `records` default slots for each record section, and returns the data of every answer
/// slot. Claimed: the result is `dns_answer_slots` of the arguments, with one entry per
/// answer slot. `Message::new` panics above 65535 slots, which `requires` leaves out.
#[verifier::external_body]
fn read_answer_slots(response: &[u8], questions: usize, records: usize) -> (res: Result<
    Vec<Vec<u8>>,
    dns_protocol::Error,
>)
    requires
        questions <= 65535,
        records <= 65535,
    ensures
        res is Ok <==> dns_answer_slots(response@, questions, records) is Some,
        res matches Ok(slots) ==> {
            &&& slots@.len() == records
            &&& slots.deep_view() == dns_answer_slots(response@, questions, records).unwrap()
        },
{
    let mut qs = vec![dns_protocol::Question::default(); questions];
    let mut answers = vec![dns_protocol::ResourceRecord::default(); records];
    let mut authorities = vec![dns_protocol::ResourceRecord::default(); records];
    let mut additional = vec![dns_protocol::ResourceRecord::default(); records];
    dns_protocol::Message::read(response, &mut qs, &mut answers, &mut authorities, &mut additional)?;
    Ok(answers.iter().map(|a| a.data().to_vec()).collect())
}

/// Errors of the name lookup.
#[derive(Clone, Copy, PartialEq, Eq, Structural, Debug)]
pub enum DnsError {
    /// The name cannot be written as a query.
    NameNotEncodable,
    /// `dns_protocol` rejected the response.
    MalformedResponse,
}

/// An address from an answer record.
#[derive(Clone, Copy, PartialEq, Eq, Debug)]
pub enum IpAddress {
    V4([u8; 4]),
    V6([u8; 16]),
}

/// The bytes of an address.
pub open spec fn address_bytes(a: IpAddress) -> Seq<u8> {
    match a {
        IpAddress::V4(b) => b@,
        IpAddress::V6(b) => b@,
    }
}

/// Whether record data is an address: four bytes (IPv4) or sixteen (IPv6).
pub open spec fn is_address_data(d: Seq<u8>) -> bool {
    d.len() == 4 || d.len() == 16
}

/// The index of the first slot at or after `i` whose data is an address, if any.
pub open spec fn address_slot_from(slots: Seq<Seq<u8>>, i: int) -> Option<int>
    decreases slots.len() - i,
{
    if i < 0 || i >= slots.len() {
        None
    } else if is_address_data(slots[i]) {
        Some(i)
    } else {
        address_slot_from(slots, i + 1)
    }
}

/// The address the firmware takes from the answer slots: the data of the first slot that
/// holds four or sixteen bytes.
pub open spec fn first_address(slots: Seq<Seq<u8>>) -> Option<Seq<u8>> {
    match address_slot_from(slots, 0) {
        Some(i) => Some(slots[i]),
        None => None,
    }
}

/// Takes the first answer whose data is an IPv4 (four bytes) or IPv6 (sixteen bytes)
/// address.
pub fn select_address(slots: &Vec<Vec<u8>>) -> (res: Option<IpAddress>)
    ensures
        match first_address(slots.deep_view()) {
            Some(d) => res matches Some(a) && address_bytes(a) == d && (a is V4 <==> d.len()
                == 4),
            None => res is None,
        },
{
    let mut i: usize = 0;
    while i < slots.len()
        invariant
            i <= slots@.len(),
            slots.deep_view().len() == slots@.len(),
            address_slot_from(slots.deep_view(), 0) == address_slot_from(
                slots.deep_view(),
                i as int,
            ),
        decreases slots@.len() - i,
    {
        let d = &slots[i];
        assert(slots.deep_view()[i as int] == d@);
        if d.len() == 4 {
            let a = [d[0], d[1], d[2], d[3]];
            assert(a@ =~= d@);
            return Some(IpAddress::V4(a));
        }
        if d.len() == 16 {
            let a = [
                d[0],
                d[1],
                d[2],
                d[3],
                d[4],
                d[5],
                d[6],
                d[7],
                d[8],
                d[9],
                d[10],
                d[11],
                d[12],
                d[13],
                d[14],
                d[15],
            ];
            assert(a@ =~= d@);
            return Some(IpAddress::V6(a));
        }
        i = i + 1;
    }
    None
}

/// Whether `name` can be written as a query (see `query_encodable`).
pub fn query_fits(name: &str) -> (ok: bool)
    ensures
        ok == query_encodable(name.spec_bytes()),
{
    let b = name.as_bytes();
    let n = b.len();
    let mut wire: u128 = 0;
    let mut run: u128 = 0;
    let mut short = true;
    let mut i: usize = 0;
    assert(b@.take(0) =~= Seq::<u8>::empty());
    while i < n
        invariant
            n == b@.len(),
            i <= n,
            wire == labels_wire_len(b@.take(i as int)),
            run == run_at_end(b@.take(i as int)),
            wire <= 2 * i,
            run <= i,
            short == (forall|j: int| 0 <= j <= i ==> #[trigger] run_at_end(b@.take(j)) <= 63),
        decreases n - i,
    {
        let c = b[i];
        assert(b@.take(i + 1).drop_last() =~= b@.take(i as int));
        let ghost old_short = short;
        if c == 46u8 {
            run = 0;
        } else {
            if run == 0 {
                wire = wire + 2;
            } else {
                wire = wire + 1;
            }
            run = run + 1;
        }
        i = i + 1;
        if run > 63 {
            short = false;
        }
        proof {
            let ni = i as int;
            assert(run_at_end(b@.take(ni)) == run);
            if old_short && run <= 63 {
                assert forall|j: int| 0 <= j <= ni implies #[trigger] run_at_end(b@.take(j))
                    <= 63 by {
                    if j < ni {
                        assert(0 <= j <= ni - 1);
                    }
                }
            }
            if !old_short {
                let j0 = choose|j: int| 0 <= j <= ni - 1 && !(#[trigger] run_at_end(b@.take(j)) <= 63);
                assert(0 <= j0 <= ni);
            }
        }
    }
    assert(b@.take(n as int) =~= b@);
    short && wire + 17 <= QUERY_CAPACITY as u128
}

/// Writes the firmware's query for `name`: identifier 0xFEE7, recursion desired, one
/// question for the name's `A` record in class `IN`.
pub fn build_query(name: &str) -> (q: Vec<u8>)
    requires
        query_encodable(name.spec_bytes()),
    ensures
        q@ == dns_query_wire(name.spec_bytes(), QUERY_ID, QUERY_TYPE_A, QUERY_CLASS_IN),
{
    match write_query(name, QUERY_ID, QUERY_TYPE_A, QUERY_CLASS_IN, QUERY_CAPACITY) {
        Ok(q) => q,
        Err(_) => {
            proof {
                assert(false);
            }
            Vec::new()
        },
    }
}

/// Writes the firmware's query for `name`, or fails on names it cannot encode (on which
/// the firmware panics).
pub fn try_build_query(name: &str) -> (res: Result<Vec<u8>, DnsError>)
    ensures
        match res {
            Ok(q) => query_encodable(name.spec_bytes()) && q@ == dns_query_wire(
                name.spec_bytes(),
                QUERY_ID,
                QUERY_TYPE_A,
                QUERY_CLASS_IN,
            ),
            Err(e) => !query_encodable(name.spec_bytes()) && e == DnsError::NameNotEncodable,
        },
{
    if query_fits(name) {
        Ok(build_query(name))
    } else {
        Err(DnsError::NameNotEncodable)
    }
}

/// Reads a response to the firmware's query and takes the address it answers with: the
/// first of the sixteen answer slots whose data is four or sixteen bytes long. Fails when
/// `dns_protocol` rejects the response (the firmware panics there).
pub fn address_in_response(response: &[u8]) -> (res: Result<Option<IpAddress>, DnsError>)
    ensures
        match dns_answer_slots(response@, QUESTION_SLOTS, RECORD_SLOTS) {
            Some(slots) => res matches Ok(a) && match first_address(slots) {
                Some(d) => a matches Some(ip) && address_bytes(ip) == d,
                None => a is None,
            },
            None => res == Err::<Option<IpAddress>, DnsError>(DnsError::MalformedResponse),
        },
{
    match read_answer_slots(response, QUESTION_SLOTS, RECORD_SLOTS) {
        Ok(slots) => Ok(select_address(&slots)),
        Err(_) => Err(DnsError::MalformedResponse),
    }
}

/// The lookup takes the earliest address: every answer slot before the chosen one holds
/// data that is neither four nor sixteen bytes long.
pub proof fn law_first_address_is_earliest(slots: Seq<Seq<u8>>)
    ensures
        match address_slot_from(slots, 0) {
            Some(i) => 0 <= i < slots.len() && is_address_data(slots[i]) && first_address(slots)
                == Some(slots[i]) && forall|k: int| 0 <= k < i ==> !is_address_data(slots[k]),
            None => first_address(slots) is None && forall|k: int|
                0 <= k < slots.len() ==> !is_address_data(slots[k]),
        },
{
    lemma_address_slot_from(slots, 0);
}

/// The search from `i` finds the first address slot at or after `i`.
proof fn lemma_address_slot_from(slots: Seq<Seq<u8>>, i: int)
    requires
        0 <= i,
    ensures
        match address_slot_from(slots, i) {
            Some(j) => i <= j < slots.len() && is_address_data(slots[j]) && forall|k: int|
                i <= k < j ==> !is_address_data(slots[k]),
            None => forall|k: int| i <= k < slots.len() ==> !is_address_data(slots[k]),
        },
    decreases slots.len() - i,
{
    if i < slots.len() && !is_address_data(slots[i]) {
        lemma_address_slot_from(slots, i + 1);
    }
}

} // verus!
