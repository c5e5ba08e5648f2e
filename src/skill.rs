use vstd::arithmetic::power2::{lemma2_to64, lemma_pow2_strictly_increases, lemma_pow2_unfold, pow2};
use vstd::prelude::*;
use vstd::string::StringSliceAdditionalSpecFns;
use vstd::utf8::encode_utf8;

use crate::enums::{attribute_spec, profession_spec, AttributeType, ProfessionType};

verus! {

/// Why a build code could not be decoded.
#[derive(Debug, Copy, Clone, PartialEq, Eq, Structural)]
pub enum DecodeError {
    /// A byte of the code lies outside the 64-symbol alphabet.
    InvalidCharacter,
    /// A profession field holds an identifier that names no profession.
    UnknownProfession,
    /// An attribute field holds an identifier that names no attribute.
    UnknownAttribute,
    /// The bit stream ends before a field is complete.
    Truncated,
}

// ---------------------------------------------------------------------------
// Mathematical model of the format
// ---------------------------------------------------------------------------

/// The value of one alphabet symbol: `A-Z` are 0-25, `a-z` 26-51, `0-9` 52-61,
/// `+` 62 and `/` 63; every other byte has none.
pub open spec fn sextet_spec(b: u8) -> Option<u8> {
    if 65 <= b && b <= 90 {
        Some((b - 65) as u8)
    } else if 97 <= b && b <= 122 {
        Some((b - 71) as u8)
    } else if 48 <= b && b <= 57 {
        Some((b + 4) as u8)
    } else if b == 43 {
        Some(62)
    } else if b == 47 {
        Some(63)
    } else {
        None
    }
}

/// The symbol whose value is `v`, for `v` in [0, 63].
pub open spec fn symbol_spec(v: u8) -> u8 {
    if v < 26 {
        (v + 65) as u8
    } else if v < 52 {
        (v + 71) as u8
    } else if v < 62 {
        (v - 4) as u8
    } else if v == 62 {
        43
    } else {
        47
    }
}

/// `v` written with `w` binary digits, most significant first (`true` is a one).
pub open spec fn bits_of(v: nat, w: nat) -> Seq<bool>
    decreases w,
{
    if w == 0 {
        Seq::empty()
    } else {
        bits_of(v / 2, (w - 1) as nat).push(v % 2 == 1)
    }
}

/// The number that a run of binary digits denotes, least significant first:
/// the first digit has weight 1, the next 2, and so on.
pub open spec fn value_of(bits: Seq<bool>) -> nat
    decreases bits.len(),
{
    if bits.len() == 0 {
        0
    } else {
        (if bits[0] {
            1nat
        } else {
            0nat
        }) + 2 * value_of(bits.subrange(1, bits.len() as int))
    }
}

/// The six bits that one symbol of value `v` contributes to the stream: its
/// six-digit rendering with the digits in reverse order.
pub open spec fn group_spec(v: nat) -> Seq<bool> {
    bits_of(v, 6).reverse()
}

/// Every byte of the code is an alphabet symbol.
pub open spec fn all_symbols(code: Seq<u8>) -> bool {
    forall|j: int| 0 <= j < code.len() ==> (#[trigger] sextet_spec(code[j])) is Some
}

/// The bit stream of a code: the groups of its symbols, in input order.
pub open spec fn stream_spec(code: Seq<u8>) -> Seq<bool>
    decreases code.len(),
{
    if code.len() == 0 {
        Seq::empty()
    } else {
        stream_spec(code.drop_last()) + group_spec(
            sextet_spec(code.last()).unwrap_or(0) as nat,
        )
    }
}

/// The value of the `n` bits at `pos`, or `None` where the stream ends first.
pub open spec fn read_spec(bits: Seq<bool>, pos: nat, n: nat) -> Option<nat> {
    if pos + n <= bits.len() {
        Some(value_of(bits.subrange(pos as int, (pos + n) as int)))
    } else {
        None
    }
}

/// The profession pair at `pos`, and the position after it.
pub open spec fn professions_spec(bits: Seq<bool>, pos: nat) -> Result<
    (ProfessionType, ProfessionType, nat),
    DecodeError,
> {
    match read_spec(bits, pos, 2) {
        None => Err(DecodeError::Truncated),
        Some(n) => {
            let w = n * 2 + 4;
            match (read_spec(bits, pos + 2, w), read_spec(bits, pos + 2 + w, w)) {
                (Some(a), Some(b)) => match (profession_spec(a), profession_spec(b)) {
                    (Some(p), Some(q)) => Ok((p, q, pos + 2 + 2 * w)),
                    _ => Err(DecodeError::UnknownProfession),
                },
                _ => Err(DecodeError::Truncated),
            }
        },
    }
}

/// The first `c` attribute entries from `pos`, each an identifier of `w` bits
/// and four bits of points, and the position after them.
pub open spec fn attribute_entries_spec(bits: Seq<bool>, pos: nat, c: nat, w: nat) -> Result<
    (Seq<(AttributeType, u32)>, nat),
    DecodeError,
>
    decreases c,
{
    if c == 0 {
        Ok((Seq::empty(), pos))
    } else {
        match attribute_entries_spec(bits, pos, (c - 1) as nat, w) {
            Err(e) => Err(e),
            Ok((s, p)) => match (read_spec(bits, p, w), read_spec(bits, p + w, 4)) {
                (Some(id), Some(points)) => match attribute_spec(id) {
                    Some(a) => Ok((s.push((a, points as u32)), p + w + 4)),
                    None => Err(DecodeError::UnknownAttribute),
                },
                _ => Err(DecodeError::Truncated),
            },
        }
    }
}

/// The attribute list at `pos`: a four-bit count, a four-bit width that is
/// four less than the identifiers' width, then the entries.
pub open spec fn attributes_spec(bits: Seq<bool>, pos: nat) -> Result<
    (Seq<(AttributeType, u32)>, nat),
    DecodeError,
> {
    match (read_spec(bits, pos, 4), read_spec(bits, pos + 4, 4)) {
        (Some(c), Some(w)) => attribute_entries_spec(bits, pos + 8, c, w + 4),
        _ => Err(DecodeError::Truncated),
    }
}

/// The first `k` skill identifiers of `w` bits each from `pos`.
pub open spec fn skill_ids_spec(bits: Seq<bool>, pos: nat, k: nat, w: nat) -> Option<Seq<u32>>
    decreases k,
{
    if k == 0 {
        Some(Seq::empty())
    } else {
        match (skill_ids_spec(bits, pos, (k - 1) as nat, w), read_spec(
            bits,
            (pos + (k - 1) * w) as nat,
            w,
        )) {
            (Some(s), Some(id)) => Some(s.push(id as u32)),
            _ => None,
        }
    }
}

/// The eight skill slots at `pos`: a four-bit width that is eight less than
/// the identifiers' width, then the identifiers.
pub open spec fn skills_spec(bits: Seq<bool>, pos: nat) -> Option<Seq<u32>> {
    match read_spec(bits, pos, 4) {
        Some(w) => skill_ids_spec(bits, pos + 4, 8, w + 8),
        None => None,
    }
}

/// What a decoded build holds.
pub ghost struct SkillCodeView {
    pub primary_profession: ProfessionType,
    pub secondary_profession: ProfessionType,
    pub attributes: Seq<(AttributeType, u32)>,
    pub skills: Seq<u32>,
}

/// The build that a bit stream holds: an eight-bit header, then the
/// professions, the attributes and the skills.
pub open spec fn fields_spec(bits: Seq<bool>) -> Result<SkillCodeView, DecodeError> {
    if bits.len() < 8 {
        Err(DecodeError::Truncated)
    } else {
        match professions_spec(bits, 8) {
            Err(e) => Err(e),
            Ok((p, q, pos)) => match attributes_spec(bits, pos) {
                Err(e) => Err(e),
                Ok((attributes, pos2)) => match skills_spec(bits, pos2) {
                    None => Err(DecodeError::Truncated),
                    Some(skills) => Ok(
                        SkillCodeView {
                            primary_profession: p,
                            secondary_profession: q,
                            attributes,
                            skills,
                        },
                    ),
                },
            },
        }
    }
}

/// The outcome of decoding the build code whose bytes are `code`.
pub open spec fn parse_spec(code: Seq<u8>) -> Result<SkillCodeView, DecodeError> {
    if !all_symbols(code) {
        Err(DecodeError::InvalidCharacter)
    } else {
        fields_spec(stream_spec(code))
    }
}

// ---------------------------------------------------------------------------
// Facts about the model
// ---------------------------------------------------------------------------

/// A run of `n` bits denotes less than 2^n.
proof fn lemma_value_bound(bits: Seq<bool>)
    ensures
        value_of(bits) < pow2(bits.len()),
    decreases bits.len(),
{
    if bits.len() > 0 {
        let rest = bits.subrange(1, bits.len() as int);
        lemma_value_bound(rest);
        lemma_pow2_unfold(bits.len());
        assert(rest.len() == (bits.len() - 1) as nat);
        assert(value_of(bits) <= 2 * value_of(rest) + 1);
    } else {
        lemma2_to64();
    }
}

/// A run of at most 32 bits denotes a value that fits in a `u32`.
proof fn lemma_value_fits(bits: Seq<bool>)
    requires
        bits.len() <= 32,
    ensures
        value_of(bits) < 0x1_0000_0000,
{
    lemma_value_bound(bits);
    lemma2_to64();
    if bits.len() < 32 {
        lemma_pow2_strictly_increases(bits.len(), 32);
    }
}

/// Once a prefix of the attribute entries fails, the whole list fails alike.
proof fn lemma_entries_err(bits: Seq<bool>, pos: nat, i: nat, c: nat, w: nat)
    requires
        i <= c,
        attribute_entries_spec(bits, pos, i, w) is Err,
    ensures
        attribute_entries_spec(bits, pos, c, w) == attribute_entries_spec(bits, pos, i, w),
    decreases c,
{
    if c > i {
        lemma_entries_err(bits, pos, i, (c - 1) as nat, w);
    }
}

/// Once a prefix of the skill identifiers is missing, all of them are.
proof fn lemma_skill_ids_none(bits: Seq<bool>, pos: nat, i: nat, k: nat, w: nat)
    requires
        i <= k,
        skill_ids_spec(bits, pos, i, w) is None,
    ensures
        skill_ids_spec(bits, pos, k, w) is None,
    decreases k,
{
    if k > i {
        lemma_skill_ids_none(bits, pos, i, (k - 1) as nat, w);
    }
}

proof fn lemma_skill_ids_len(bits: Seq<bool>, pos: nat, k: nat, w: nat)
    requires
        skill_ids_spec(bits, pos, k, w) is Some,
    ensures
        skill_ids_spec(bits, pos, k, w)->0.len() == k,
    decreases k,
{
    if k > 0 {
        lemma_skill_ids_len(bits, pos, (k - 1) as nat, w);
    }
}

// ---------------------------------------------------------------------------
// Decoding
// ---------------------------------------------------------------------------

/// The value of alphabet symbol `b`, or `None` where `b` is no symbol.
pub fn standard_decode(b: u8) -> (r: Option<u8>)
    ensures
        r == sextet_spec(b),
{
    if 65 <= b && b <= 90 {
        Some(b - 65)
    } else if 97 <= b && b <= 122 {
        Some(b - 71)
    } else if 48 <= b && b <= 57 {
        Some(b + 4)
    } else if b == 43 {
        Some(62)
    } else if b == 47 {
        Some(63)
    } else {
        None
    }
}

/// `v` written with `w` binary digits, most significant first.
fn binary_pad(v: u32, w: usize) -> (r: Vec<bool>)
    ensures
        r@ == bits_of(v as nat, w as nat),
    decreases w,
{
    if w == 0 {
        Vec::new()
    } else {
        let mut r = binary_pad(v / 2, w - 1);
        r.push(v % 2 == 1);
        r
    }
}

/// The digits of `binary` in reverse order.
pub fn flip_binary_pad(binary: &Vec<bool>) -> (r: Vec<bool>)
    ensures
        r@ == binary@.reverse(),
{
    let n = binary.len();
    let mut r: Vec<bool> = Vec::new();
    let mut i: usize = 0;
    while i < n
        invariant
            n == binary@.len(),
            i <= n,
            r@.len() == i,
            forall|j: int| 0 <= j < i ==> r@[j] == binary@[n - 1 - j],
        decreases n - i,
    {
        r.push(binary[n - 1 - i]);
        i += 1;
    }
    assert(r@ =~= binary@.reverse());
    r
}

/// The number that `binary` denotes, least significant digit first.
fn unflip_binary(binary: &Vec<bool>) -> (r: u32)
    requires
        binary@.len() <= 32,
    ensures
        r as nat == value_of(binary@),
{
    let len = binary.len();
    let mut num: u32 = 0;
    let mut i: usize = len;
    while i > 0
        invariant
            len == binary@.len() <= 32,
            i <= len,
            num as nat == value_of(binary@.subrange(i as int, len as int)),
        decreases i,
    {
        let ghost next = binary@.subrange(i - 1, len as int);
        proof {
            assert(next.subrange(1, next.len() as int) =~= binary@.subrange(i as int, len as int));
            assert(next[0] == binary@[i - 1]);
            lemma_value_fits(next);
        }
        num = num * 2 + if binary[i - 1] {
            1
        } else {
            0
        };
        i -= 1;
    }
    assert(binary@.subrange(0, len as int) =~= binary@);
    num
}

/// The bit stream of `code`, or `InvalidCharacter` where a byte is no symbol.
pub fn decode(code: &str) -> (r: Result<Vec<bool>, DecodeError>)
    ensures
        match r {
            Ok(bits) => all_symbols(code.spec_bytes()) && bits@ == stream_spec(code.spec_bytes()),
            Err(e) => !all_symbols(code.spec_bytes()) && e == DecodeError::InvalidCharacter,
        },
{
    let bytes = code.as_bytes();
    let ghost s = code.spec_bytes();
    let mut out: Vec<bool> = Vec::new();
    let mut i: usize = 0;
    while i < bytes.len()
        invariant
            bytes@ == s,
            s == code.spec_bytes(),
            i <= s.len(),
            all_symbols(s.take(i as int)),
            out@ == stream_spec(s.take(i as int)),
        decreases s.len() - i,
    {
        match standard_decode(bytes[i]) {
            None => {
                assert(sextet_spec(s[i as int]) is None);
                assert(!all_symbols(s));
                return Err(DecodeError::InvalidCharacter);
            },
            Some(v) => {
                let group = flip_binary_pad(&binary_pad(v as u32, 6));
                proof {
                    let t = s.take(i + 1);
                    assert(t.drop_last() =~= s.take(i as int));
                    assert(t.last() == s[i as int]);
                    assert forall|j: int| 0 <= j < t.len() implies (#[trigger] sextet_spec(
                        t[j],
                    )) is Some by {
                        if j < i {
                            assert(t[j] == s.take(i as int)[j]);
                        }
                    }
                }
                out.append(&mut group.clone());
                i += 1;
            },
        }
    }
    assert(s.take(s.len() as int) =~= s);
    Ok(out)
}

// ---------------------------------------------------------------------------
// Field readers
// ---------------------------------------------------------------------------

/// A bit stream and the position of the next bit to read.
struct BitCursor {
    bits: Vec<bool>,
    pos: usize,
}

/// The next `n` bits of the cursor, or `None` where fewer are left; only a
/// successful read moves the cursor.
fn string_from_n_chars(cursor: &mut BitCursor, n: usize) -> (r: Option<Vec<bool>>)
    requires
        old(cursor).pos <= old(cursor).bits@.len(),
    ensures
        final(cursor).bits@ == old(cursor).bits@,
        old(cursor).pos + n <= old(cursor).bits@.len() ==> r is Some && r->0@ == old(
            cursor,
        ).bits@.subrange(old(cursor).pos as int, old(cursor).pos + n) && final(cursor).pos
            == old(cursor).pos + n,
        old(cursor).pos + n > old(cursor).bits@.len() ==> r is None && final(cursor).pos == old(
            cursor,
        ).pos,
{
    if n > cursor.bits.len() - cursor.pos {
        return None;
    }
    let start = cursor.pos;
    let len = cursor.bits.len();
    let mut buffer: Vec<bool> = Vec::new();
    let mut i: usize = 0;
    while i < n
        invariant
            len == cursor.bits@.len(),
            start + n <= cursor.bits@.len(),
            i <= n,
            buffer@ == cursor.bits@.subrange(start as int, start + i),
        decreases n - i,
    {
        buffer.push(cursor.bits[start + i]);
        i += 1;
        assert(buffer@ =~= cursor.bits@.subrange(start as int, start + i));
    }
    cursor.pos = start + n;
    Some(buffer)
}

/// The value of the next `n` bits, least significant first.
fn read_value(cursor: &mut BitCursor, n: usize) -> (r: Result<u32, DecodeError>)
    requires
        n <= 32,
        old(cursor).pos <= old(cursor).bits@.len(),
    ensures
        final(cursor).bits@ == old(cursor).bits@,
        final(cursor).pos <= final(cursor).bits@.len(),
        match read_spec(old(cursor).bits@, old(cursor).pos as nat, n as nat) {
            Some(v) => r == Ok::<u32, DecodeError>(v as u32) && v < pow2(n as nat)
                && v < 0x1_0000_0000
                && final(cursor).pos == old(cursor).pos + n,
            None => r == Err::<u32, DecodeError>(DecodeError::Truncated),
        },
{
    match string_from_n_chars(cursor, n) {
        None => Err(DecodeError::Truncated),
        Some(chunk) => {
            proof {
                lemma_value_fits(chunk@);
                lemma_value_bound(chunk@);
            }
            Ok(unflip_binary(&chunk))
        },
    }
}

/// Skips the eight header bits: a format tag and a version, both unused and
/// accepted whatever they hold.
fn read_template_header(cursor: &mut BitCursor) -> (r: Result<(), DecodeError>)
    requires
        old(cursor).pos <= old(cursor).bits@.len(),
    ensures
        final(cursor).bits@ == old(cursor).bits@,
        final(cursor).pos <= final(cursor).bits@.len(),
        old(cursor).pos + 8 <= old(cursor).bits@.len() ==> r is Ok && final(cursor).pos == old(
            cursor,
        ).pos + 8,
        old(cursor).pos + 8 > old(cursor).bits@.len() ==> r == Err::<(), DecodeError>(
            DecodeError::Truncated,
        ),
{
    let _template_type = read_value(cursor, 4)?;
    let _version = read_value(cursor, 4)?;
    Ok(())
}

/// The primary and secondary professions.
fn read_professions(cursor: &mut BitCursor) -> (r: Result<
    (ProfessionType, ProfessionType),
    DecodeError,
>)
    requires
        old(cursor).pos <= old(cursor).bits@.len(),
    ensures
        final(cursor).bits@ == old(cursor).bits@,
        final(cursor).pos <= final(cursor).bits@.len(),
        match professions_spec(old(cursor).bits@, old(cursor).pos as nat) {
            Ok((p, q, pos)) => r == Ok::<_, DecodeError>((p, q)) && final(cursor).pos == pos,
            Err(e) => r == Err::<(ProfessionType, ProfessionType), _>(e),
        },
{
    proof {
        lemma2_to64();
    }
    let n = read_value(cursor, 2)?;
    let chunk_size = (n * 2 + 4) as usize;
    let first = read_value(cursor, chunk_size)?;
    let second = read_value(cursor, chunk_size)?;
    match (ProfessionType::from(first), ProfessionType::from(second)) {
        (Some(p), Some(q)) => Ok((p, q)),
        _ => Err(DecodeError::UnknownProfession),
    }
}

/// The attribute list: a count, an identifier width, then the entries.
fn read_attributes(cursor: &mut BitCursor) -> (r: Result<Vec<(AttributeType, u32)>, DecodeError>)
    requires
        old(cursor).pos <= old(cursor).bits@.len(),
    ensures
        final(cursor).bits@ == old(cursor).bits@,
        final(cursor).pos <= final(cursor).bits@.len(),
        match attributes_spec(old(cursor).bits@, old(cursor).pos as nat) {
            Ok((s, pos)) => r is Ok && r->Ok_0@ == s && final(cursor).pos == pos,
            Err(e) => r is Err && r->Err_0 == e,
        },
{
    let ghost bits = cursor.bits@;
    let ghost start = cursor.pos as nat;
    proof {
        lemma2_to64();
    }
    let count = read_value(cursor, 4)?;
    let chunk_size = read_value(cursor, 4)? as usize + 4;
    let ghost w = chunk_size as nat;
    let mut attributes: Vec<(AttributeType, u32)> = Vec::new();
    let mut i: u32 = 0;
    while i < count
        invariant
            bits == old(cursor).bits@,
            start == old(cursor).pos,
            w == chunk_size,
            count < 16,
            cursor.bits@ == bits,
            cursor.pos <= bits.len(),
            i <= count,
            chunk_size <= 19,
            attributes_spec(bits, start) == attribute_entries_spec(bits, start + 8, count as nat, w),
            attribute_entries_spec(bits, start + 8, i as nat, w) == Ok::<_, DecodeError>(
                (attributes@, cursor.pos as nat),
            ),
        decreases count - i,
    {
        let id = match read_value(cursor, chunk_size) {
            Ok(v) => v,
            Err(e) => {
                proof {
                    lemma_entries_err(bits, start + 8, (i + 1) as nat, count as nat, w);
                }
                return Err(e);
            },
        };
        let points = match read_value(cursor, 4) {
            Ok(v) => v,
            Err(e) => {
                proof {
                    lemma_entries_err(bits, start + 8, (i + 1) as nat, count as nat, w);
                }
                return Err(e);
            },
        };
        match AttributeType::from(id) {
            None => {
                proof {
                    lemma_entries_err(bits, start + 8, (i + 1) as nat, count as nat, w);
                }
                return Err(DecodeError::UnknownAttribute);
            },
            Some(a) => {
                attributes.push((a, points));
            },
        }
        i += 1;
    }
    Ok(attributes)
}

/// The eight skill slots: an identifier width, then eight identifiers.
fn read_skills(cursor: &mut BitCursor) -> (r: Result<[u32; 8], DecodeError>)
    requires
        old(cursor).pos <= old(cursor).bits@.len(),
    ensures
        final(cursor).bits@ == old(cursor).bits@,
        match skills_spec(old(cursor).bits@, old(cursor).pos as nat) {
            Some(s) => r is Ok && r->Ok_0@ == s && final(cursor).pos == old(cursor).pos + 4 + 8 * (
            read_spec(old(cursor).bits@, old(cursor).pos as nat, 4)->0 + 8),
            None => r == Err::<[u32; 8], DecodeError>(DecodeError::Truncated),
        },
{
    let ghost bits = cursor.bits@;
    let ghost start = cursor.pos as nat;
    proof {
        lemma2_to64();
    }
    let chunk_size = read_value(cursor, 4)? as usize + 8;
    let ghost w = chunk_size as nat;
    let mut skills: Vec<u32> = Vec::new();
    let mut k: usize = 0;
    while k < 8
        invariant
            bits == old(cursor).bits@,
            start == old(cursor).pos,
            w == chunk_size,
            w == read_spec(bits, start, 4)->0 + 8,
            cursor.bits@ == bits,
            cursor.pos <= bits.len(),
            k <= 8,
            chunk_size <= 23,
            skills_spec(bits, start) == skill_ids_spec(bits, start + 4, 8, w),
            cursor.pos == start + 4 + k * w,
            skill_ids_spec(bits, start + 4, k as nat, w) == Some(skills@),
        decreases 8 - k,
    {
        proof {
            assert(start + 4 + k * w == start + 4 + ((k + 1) - 1) * w);
        }
        let id = match read_value(cursor, chunk_size) {
            Ok(v) => v,
            Err(e) => {
                proof {
                    lemma_skill_ids_none(bits, start + 4, (k + 1) as nat, 8, w);
                }
                return Err(e);
            },
        };
        skills.push(id);
        proof {
            assert(start + 4 + k * w + w == start + 4 + (k + 1) * w) by (nonlinear_arith);
        }
        k += 1;
    }
    proof {
        lemma_skill_ids_len(bits, start + 4, 8, w);
    }
    let r = [skills[0], skills[1], skills[2], skills[3], skills[4], skills[5], skills[6], skills[7]];
    assert(r@ =~= skills@);
    Ok(r)
}

// ---------------------------------------------------------------------------
// The decoded record
// ---------------------------------------------------------------------------

/// A decoded build: both professions, the attribute lines in the order of the
/// code, and the skill identifiers of the eight slots (0 is an empty slot).
#[derive(Debug, PartialEq)]
pub struct SkillCodeRecord {
    pub primary_profession: ProfessionType,
    pub secondary_profession: ProfessionType,
    pub attributes: Vec<(AttributeType, u32)>,
    pub skills: [u32; 8],
}

impl View for SkillCodeRecord {
    type V = SkillCodeView;

    open spec fn view(&self) -> SkillCodeView {
        SkillCodeView {
            primary_profession: self.primary_profession,
            secondary_profession: self.secondary_profession,
            attributes: self.attributes@,
            skills: self.skills@,
        }
    }
}

/// Decoder of build codes.
pub struct SkillCodeParser;

impl SkillCodeParser {
    /// Decodes a build code: the first failure stops the decoding and is
    /// returned; no partial record is ever built.
    pub fn parse(skill_code: String) -> (r: Result<SkillCodeRecord, DecodeError>)
        ensures
            match parse_spec(encode_utf8(skill_code@)) {
                Ok(v) => r is Ok && r->Ok_0@ == v,
                Err(e) => r is Err && r->Err_0 == e,
            },
    {
        let bits = match decode(skill_code.as_str()) {
            Ok(bits) => bits,
            Err(e) => return Err(e),
        };
        let mut cursor = BitCursor { bits, pos: 0 };
        if let Err(e) = read_template_header(&mut cursor) {
            return Err(e);
        }
        let (primary, secondary) = match read_professions(&mut cursor) {
            Ok(pair) => pair,
            Err(e) => return Err(e),
        };
        let attributes = match read_attributes(&mut cursor) {
            Ok(attributes) => attributes,
            Err(e) => return Err(e),
        };
        let skills = match read_skills(&mut cursor) {
            Ok(skills) => skills,
            Err(e) => return Err(e),
        };
        Ok(
            SkillCodeRecord {
                primary_profession: primary,
                secondary_profession: secondary,
                attributes,
                skills,
            },
        )
    }
}

// ---------------------------------------------------------------------------
// Laws
// ---------------------------------------------------------------------------

/// Decoding depends on the code alone: two equal codes decode to the same
/// record, or fail with the same error.
pub proof fn lemma_parse_deterministic(a: String, b: String)
    requires
        a@ == b@,
    ensures
        parse_spec(encode_utf8(a@)) == parse_spec(encode_utf8(b@)),
{
}

/// Every code that decodes yields exactly eight skill slots.
pub proof fn lemma_eight_slots(code: Seq<u8>)
    requires
        parse_spec(code) is Ok,
    ensures
        parse_spec(code)->Ok_0.skills.len() == 8,
{
    let bits = stream_spec(code);
    let (p, q, pos) = professions_spec(bits, 8)->Ok_0;
    let (a, pos2) = attributes_spec(bits, pos)->Ok_0;
    let w = read_spec(bits, pos2, 4)->0;
    lemma_skill_ids_len(bits, pos2 + 4, 8, w + 8);
}

/// The alphabet: exactly the bytes `A-Z`, `a-z`, `0-9`, `+` and `/` have a
/// value; the values lie in [0, 63], differ from byte to byte, and each of
/// the 64 is taken.
pub proof fn lemma_alphabet_total()
    ensures
        forall|b: u8|
            #![trigger sextet_spec(b)]
            sextet_spec(b) is Some <==> (('A' as u8 <= b && b <= 'Z' as u8) || ('a' as u8 <= b
                && b <= 'z' as u8) || ('0' as u8 <= b && b <= '9' as u8) || b == '+' as u8 || b
                == '/' as u8),
        forall|b: u8| #[trigger] sextet_spec(b) is Some ==> sextet_spec(b)->0 < 64,
        forall|a: u8, b: u8|
            sextet_spec(a) is Some && #[trigger] sextet_spec(a) == #[trigger] sextet_spec(b) ==> a
                == b,
        forall|v: u8| v < 64 ==> sextet_spec(#[trigger] symbol_spec(v)) == Some(v),
{
}

/// The bits that a single symbol of value `v` contributes: bit `i` of the
/// group is the binary digit of weight 2^i of `v`, so the group is the
/// six-digit rendering of `v` read backwards.
pub proof fn lemma_single_symbol_bits(b: u8)
    requires
        sextet_spec(b) is Some,
    ensures
        ({
            let v = sextet_spec(b)->0 as nat;
            let g = stream_spec(seq![b]);
            &&& g == bits_of(v, 6).reverse()
            &&& g == seq![
                v % 2 == 1,
                (v / 2) % 2 == 1,
                (v / 4) % 2 == 1,
                (v / 8) % 2 == 1,
                (v / 16) % 2 == 1,
                (v / 32) % 2 == 1,
            ]
        }),
{
    let v = sextet_spec(b)->0 as nat;
    let s = seq![b];
    assert(s.drop_last() =~= Seq::<u8>::empty());
    assert(s.last() == b);
    assert(stream_spec(s.drop_last()) == Seq::<bool>::empty());
    assert(stream_spec(s) == Seq::<bool>::empty() + group_spec(v));
    assert(stream_spec(s) =~= group_spec(v));
    assert(v / 2 / 2 == v / 4) by (nonlinear_arith);
    assert(v / 4 / 2 == v / 8) by (nonlinear_arith);
    assert(v / 8 / 2 == v / 16) by (nonlinear_arith);
    assert(v / 16 / 2 == v / 32) by (nonlinear_arith);
    reveal_with_fuel(bits_of, 7);
    assert(bits_of(v, 6).reverse() =~= seq![
        v % 2 == 1,
        (v / 2) % 2 == 1,
        (v / 4) % 2 == 1,
        (v / 8) % 2 == 1,
        (v / 16) % 2 == 1,
        (v / 32) % 2 == 1,
    ]);
}

} // verus!
