use vstd::prelude::*;
use vstd::utf8::*;
use vstd::string::StringSliceAdditionalSpecFns;
use fake::Fake;
use rand::Rng;
use sha2::Digest;
use crate::detect::text_between;
use crate::pii::{display_name_of, is_overlap_free, on_boundaries, views, MatchView, PiiMatch, PiiType};
use crate::text::{
    ascii_digits, digit_chars, is_str_range, is_text_range, padded_decimal, push_char,
    push_decimal, substring, decimal_chars,
};

verus! {

/// How detected PII is replaced.
#[derive(Debug, Clone, Copy, PartialEq, Eq, Structural)]
pub enum ScrubMethod {
    Remove,
    Hash,
    Fake,
    Mask,
}

/// The scrubbing settings.
#[derive(Debug, Clone, Copy)]
pub struct ScrubConfig {
    pub method: ScrubMethod,
    pub preserve_format: bool,
}

impl Default for ScrubConfig {
    fn default() -> (config: Self)
        ensures
            config.method == ScrubMethod::Mask,
            config.preserve_format,
    {
        ScrubConfig { method: ScrubMethod::Mask, preserve_format: true }
    }
}

// ---------------------------------------------------------------------------
// Outside crates
// ---------------------------------------------------------------------------

/// The SHA-256 digest of a byte sequence.
pub uninterp spec fn sha256_of(data: Seq<u8>) -> Seq<u8>;

/// `sha2::Sha256::digest`: claimed to give the SHA-256 digest of `data`,
/// named `sha256_of`, which is 32 bytes long.
#[verifier::external_body]
fn sha256(data: &[u8]) -> (digest: Vec<u8>)
    ensures
        digest@ == sha256_of(data@),
        digest@.len() == 32,
{
    sha2::Sha256::digest(data).to_vec()
}

/// A lower-case hexadecimal digit.
pub open spec fn hex_digit(n: nat) -> char {
    if n < 10 {
        crate::text::digit_char(n)
    } else if n == 10 {
        'a'
    } else if n == 11 {
        'b'
    } else if n == 12 {
        'c'
    } else if n == 13 {
        'd'
    } else if n == 14 {
        'e'
    } else {
        'f'
    }
}

/// Two lower-case hexadecimal digits per byte, high digit first.
pub open spec fn hex_chars(data: Seq<u8>) -> Seq<char>
    decreases data.len(),
{
    if data.len() == 0 {
        seq![]
    } else {
        hex_chars(data.drop_last()).push(hex_digit((data.last() / 16) as nat)).push(
            hex_digit((data.last() % 16) as nat),
        )
    }
}

/// `hex::encode`: claimed, as its documentation states, to write each byte
/// as two lower-case hexadecimal digits, high digit first.
#[verifier::external_body]
fn hex_encode(data: &[u8]) -> (text: String)
    ensures
        text@ == hex_chars(data@),
{
    hex::encode(data)
}

#[verifier::external_type_specification]
#[verifier::external_body]
pub struct ExThreadRng(rand::rngs::ThreadRng);

/// `rand::rng`: the thread's random number generator. Nothing is claimed.
#[verifier::external_body]
fn thread_rng() -> rand::rngs::ThreadRng {
    rand::rng()
}

/// `Rng::random_range` on `low..high`: claimed to give a number in that
/// range, which must not be empty. Which number comes out is left unsaid:
/// it is random.
#[verifier::external_body]
fn random_in(rng: &mut rand::rngs::ThreadRng, low: u64, high: u64) -> (n: u64)
    requires
        low < high,
    ensures
        low <= n < high,
{
    rng.random_range(low..high)
}

/// Whether `r` ends with `suffix`.
pub open spec fn ends_with(r: Seq<char>, suffix: Seq<char>) -> bool {
    r.len() >= suffix.len() && r.subrange(r.len() - suffix.len(), r.len() as int) == suffix
}

/// The e-mail stand-ins of the fake crate: a user name at `example.com`,
/// `example.net` or `example.org`.
pub open spec fn fake_email_shape(r: Seq<char>) -> bool {
    ends_with(r, "@example.com"@) || ends_with(r, "@example.net"@) || ends_with(r, "@example.org"@)
}

/// The formats of the fake crate's phone numbers: `^` stands for a digit
/// from 1 to 9, `#` for any digit.
pub open spec fn fake_phone_formats() -> Seq<Seq<char>> {
    seq![
        "(^##) ###-#### x###"@,
        "(^##) ###-#### x####"@,
        "(^##) ###-#### x#####"@,
        "(^##) ###-####"@,
        "1-^##-###-#### x###"@,
        "1-^##-###-#### x####"@,
        "1-^##-###-#### x#####"@,
        "1-^##-###-####"@,
        "^##-###-#### x###"@,
        "^##-###-#### x####"@,
        "^##-###-#### x#####"@,
        "^##-###-####"@,
        "^##.###.#### x###"@,
        "^##.###.#### x####"@,
        "^##.###.#### x#####"@,
        "^##.###.####"@,
    ]
}

/// Whether `r` fills the phone number format `fmt`.
pub open spec fn fills_format(r: Seq<char>, fmt: Seq<char>) -> bool {
    &&& r.len() == fmt.len()
    &&& forall|i: int|
        0 <= i < fmt.len() ==> if fmt[i] == '^' {
            '1' <= #[trigger] r[i] <= '9'
        } else if fmt[i] == '#' {
            '0' <= r[i] <= '9'
        } else {
            r[i] == fmt[i]
        }
}

/// The phone number stand-ins of the fake crate: one of its formats filled.
pub open spec fn fake_phone_shape(r: Seq<char>) -> bool {
    exists|k: int| 0 <= k < fake_phone_formats().len() && #[trigger] fills_format(r, fake_phone_formats()[k])
}

/// The address stand-ins of the fake crate: `Apt.` or `Suit.`, a space and
/// a number from 1 to 98.
pub open spec fn fake_address_shape(r: Seq<char>) -> bool {
    exists|n: nat| 1 <= n < 99 && (r == "Apt. "@ + #[trigger] decimal_chars(n) || r == "Suit. "@ + decimal_chars(n))
}

/// The name stand-ins of the fake crate: a first name, a space and a last
/// name.
pub open spec fn fake_name_shape(r: Seq<char>) -> bool {
    exists|i: int| 0 <= i < r.len() && #[trigger] r[i] == ' '
}

/// The company stand-ins of the fake crate: one or two last names and one
/// of its suffixes (`Inc`, `and Sons`, `LLC`, `Group`) at the end.
pub open spec fn fake_company_shape(r: Seq<char>) -> bool {
    ends_with(r, " Inc"@) || ends_with(r, " and Sons"@) || ends_with(r, " LLC"@) || ends_with(r, " Group"@)
}

/// `fake::faker::internet::en::SafeEmail`: a random e-mail address.
/// Claimed, from the crate's source (`{first name}@example.{com|net|org}`):
/// it ends with `@example.` and one of those three.
#[verifier::external_body]
fn fake_safe_email() -> (r: String)
    ensures
        fake_email_shape(r@),
{
    fake::faker::internet::en::SafeEmail().fake()
}

/// `fake::faker::phone_number::en::PhoneNumber`: a random phone number.
/// Claimed, from the crate's source: one of the English formats with each
/// `^` replaced by a digit from 1 to 9 and each `#` by a digit.
#[verifier::external_body]
fn fake_phone_number() -> (r: String)
    ensures
        fake_phone_shape(r@),
{
    fake::faker::phone_number::en::PhoneNumber().fake()
}

/// `fake::faker::address::en::SecondaryAddress`: a random address line.
/// Claimed, from the crate's source: `Apt.` or `Suit.`, a space, and a
/// number from 1 to 98.
#[verifier::external_body]
fn fake_secondary_address() -> (r: String)
    ensures
        fake_address_shape(r@),
{
    fake::faker::address::en::SecondaryAddress().fake()
}

/// `fake::faker::name::en::Name`: a random person name. Claimed, from the
/// crate's source (`{first name} {last name}`): it holds a space. Which
/// names it draws is not stated.
#[verifier::external_body]
fn fake_name() -> (r: String)
    ensures
        fake_name_shape(r@),
{
    fake::faker::name::en::Name().fake()
}

/// `fake::faker::company::en::CompanyName`: a random company name. Claimed,
/// from the crate's source: it ends with a space and one of the suffixes.
/// Which last names it draws is not stated.
#[verifier::external_body]
fn fake_company_name() -> (r: String)
    ensures
        fake_company_shape(r@),
{
    fake::faker::company::en::CompanyName().fake()
}

// ---------------------------------------------------------------------------
// Replacements
// ---------------------------------------------------------------------------

/// The label a Remove placeholder gives a type: its display name in upper
/// case, but `EMAIL` for an e-mail address (`[EMAIL REMOVED]`).
pub open spec fn removal_label(t: PiiType) -> Seq<char> {
    match t {
        PiiType::Email => "EMAIL"@,
        PiiType::Phone => "PHONE NUMBER"@,
        PiiType::SSN => "SOCIAL SECURITY NUMBER"@,
        PiiType::CreditCard => "CREDIT CARD NUMBER"@,
        PiiType::IPAddress => "IP ADDRESS"@,
        PiiType::DateOfBirth => "DATE OF BIRTH"@,
        PiiType::Address => "STREET ADDRESS"@,
        PiiType::Name => "PERSON NAME"@,
        PiiType::Passport => "PASSPORT NUMBER"@,
        PiiType::DriversLicense => "DRIVER'S LICENSE"@,
        PiiType::BankAccount => "BANK ACCOUNT NUMBER"@,
        PiiType::Organization => "ORGANIZATION NAME"@,
    }
}

/// The placeholder of the Remove method: the type's label in brackets.
pub open spec fn placeholder(t: PiiType) -> Seq<char> {
    "["@ + removal_label(t) + " REMOVED]"@
}

/// The Hash method: `#` and the first 12 hexadecimal digits of the SHA-256
/// digest of the value's UTF-8 bytes.
pub open spec fn hashed(value: Seq<char>) -> Seq<char> {
    seq!['#'] + hex_chars(sha256_of(encode_utf8(value))).take(12)
}

/// The position of the first byte `b` in `bytes`, if any.
pub open spec fn first_index(bytes: Seq<u8>, b: u8) -> Option<int> {
    if exists|i: int| 0 <= i < bytes.len() && bytes[i] == b && forall|j: int| 0 <= j < i ==> bytes[j] != b {
        Some(choose|i: int| 0 <= i < bytes.len() && bytes[i] == b && forall|j: int| 0 <= j < i ==> bytes[j] != b)
    } else {
        None
    }
}

/// The last four of the digits, or `None` when there are fewer.
pub open spec fn last_four(digits: Seq<char>) -> Option<Seq<char>> {
    if digits.len() >= 4 {
        Some(digits.subrange(digits.len() - 4, digits.len() as int))
    } else {
        None
    }
}

/// What the Mask method writes for a value, `None` for organizations, which
/// are masked by a random company name.
pub open spec fn masked(t: PiiType, value: Seq<char>) -> Option<Seq<char>> {
    let bytes = encode_utf8(value);
    match t {
        PiiType::Email => match first_index(bytes, 64u8) {
            Some(at) => {
                let domain = decode_utf8(bytes.subrange(at, bytes.len() as int));
                if at > 2 {
                    Some(decode_utf8(bytes.subrange(0, 1)) + "***"@ + domain)
                } else {
                    Some("***"@ + domain)
                }
            },
            None => Some("***@***.***"@),
        },
        PiiType::Phone => match last_four(digit_chars(value)) {
            Some(d) => Some("***-***-"@ + d),
            None => Some("***-***-****"@),
        },
        PiiType::SSN => Some("***-**-****"@),
        PiiType::CreditCard => match last_four(digit_chars(value)) {
            Some(d) => Some("****-****-****-"@ + d),
            None => Some("****-****-****-****"@),
        },
        PiiType::IPAddress => Some("***.***.***.***"@),
        PiiType::DateOfBirth => Some("**/**/****"@),
        PiiType::Organization => None,
        _ => Some(
            Seq::new(
                if bytes.len() < 20 {
                    bytes.len()
                } else {
                    20
                },
                |i: int| '*',
            ),
        ),
    }
}

/// Masking an e-mail address keeps its first byte as a character when the
/// part before `@` is longer than 2 bytes; that byte must then be a whole
/// character.
pub open spec fn mask_defined(t: PiiType, value: Seq<char>) -> bool {
    let bytes = encode_utf8(value);
    t == PiiType::Email ==> match first_index(bytes, 64u8) {
        Some(at) => at > 2 ==> is_char_boundary(bytes, 1),
        None => true,
    }
}

/// The shapes of the generated stand-ins of the Fake method; the e-mail,
/// phone, address, name and organization stand-ins come from the fake
/// crate.
pub open spec fn fake_shape(t: PiiType, r: Seq<char>) -> bool {
    match t {
        PiiType::SSN => exists|a: nat, b: nat, c: nat|
            100 <= a < 899 && 1 <= b < 99 && 1 <= c < 9999 && r == padded_decimal(a, 3) + "-"@
                + padded_decimal(b, 2) + "-"@ + padded_decimal(c, 4),
        PiiType::CreditCard => exists|a: nat, b: nat, c: nat, d: nat|
            a < 999 && b < 9999 && c < 9999 && d < 9999 && r == "4"@ + padded_decimal(a, 3) + "-"@
                + padded_decimal(b, 4) + "-"@ + padded_decimal(c, 4) + "-"@ + padded_decimal(d, 4),
        PiiType::IPAddress => exists|a: nat, b: nat, c: nat, d: nat|
            1 <= a < 255 && b < 255 && c < 255 && 1 <= d < 255 && r == decimal_chars(a) + "."@
                + decimal_chars(b) + "."@ + decimal_chars(c) + "."@ + decimal_chars(d),
        PiiType::DateOfBirth => exists|m: nat, d: nat, y: nat|
            1 <= m < 12 && 1 <= d < 28 && 1950 <= y < 2005 && r == padded_decimal(m, 2) + "/"@
                + padded_decimal(d, 2) + "/"@ + padded_decimal(y, 4),
        PiiType::Passport => exists|n: nat|
            10000000 <= n < 99999999 && r == "P"@ + padded_decimal(n, 8),
        PiiType::DriversLicense => exists|n: nat|
            1000000 <= n < 9999999 && r == "DL"@ + padded_decimal(n, 7),
        PiiType::BankAccount => exists|n: nat|
            100000000000 <= n < 999999999999 && r == padded_decimal(n, 12),
        PiiType::Email => fake_email_shape(r),
        PiiType::Phone => fake_phone_shape(r),
        PiiType::Address => fake_address_shape(r),
        PiiType::Name => fake_name_shape(r),
        PiiType::Organization => fake_company_shape(r),
    }
}

/// Whether `r` is a replacement the method may write for a value of type
/// `t`: fixed for Remove, Hash and (but for organizations) Mask; of the
/// stated shape for Fake.
pub open spec fn is_replacement(method: ScrubMethod, t: PiiType, value: Seq<char>, r: Seq<char>) -> bool {
    match method {
        ScrubMethod::Remove => r == placeholder(t),
        ScrubMethod::Hash => r == hashed(value),
        ScrubMethod::Fake => fake_shape(t, r),
        ScrubMethod::Mask => match masked(t, value) {
            Some(m) => r == m,
            None => fake_company_shape(r),
        },
    }
}

/// Only masking can fail, on an e-mail address whose first byte is part of
/// a longer character.
pub open spec fn replacement_defined(method: ScrubMethod, t: PiiType, value: Seq<char>) -> bool {
    method == ScrubMethod::Mask ==> mask_defined(t, value)
}

// ---------------------------------------------------------------------------
// Splicing
// ---------------------------------------------------------------------------

/// Output so far and end of the last match after the first `n` matches:
/// the text between the previous match and a match is copied when the match
/// starts after it, then the match's replacement is written.
pub open spec fn splice_scan(text: Seq<char>, ms: Seq<MatchView>, reps: Seq<Seq<char>>, n: nat) -> (
    Seq<char>,
    usize,
)
    decreases n,
{
    if n == 0 {
        (seq![], 0usize)
    } else {
        let (out, last_end) = splice_scan(text, ms, reps, (n - 1) as nat);
        let m = ms[n - 1];
        let copied = if m.start > last_end {
            out + text_between(text, last_end as int, m.start as int)
        } else {
            out
        };
        (copied + reps[n - 1], m.end)
    }
}

/// The text with each match replaced by its replacement.
pub open spec fn spliced(text: Seq<char>, ms: Seq<MatchView>, reps: Seq<Seq<char>>) -> Seq<char> {
    let (out, last_end) = splice_scan(text, ms, reps, ms.len());
    let len = encode_utf8(text).len();
    if last_end < len {
        out + text_between(text, last_end as int, len as int)
    } else {
        out
    }
}

/// Empty replacements for `n` matches (the match ends splicing visits do not
/// depend on the replacements).
pub open spec fn no_replacements(n: nat) -> Seq<Seq<char>> {
    Seq::new(n, |i: int| Seq::<char>::empty())
}

/// Every piece of the text that splicing copies is a range on character
/// boundaries.
pub open spec fn splice_ranges_ok(text: Seq<char>, ms: Seq<MatchView>) -> bool {
    let reps = no_replacements(ms.len());
    &&& forall|i: int|
        0 <= i < ms.len() ==> {
            let last_end = (#[trigger] splice_scan(text, ms, reps, i as nat)).1;
            ms[i].start > last_end ==> is_text_range(text, last_end as int, ms[i].start as int)
        }
    &&& {
        let last_end = splice_scan(text, ms, reps, ms.len()).1;
        last_end < encode_utf8(text).len() ==> is_text_range(text, last_end as int, encode_utf8(text).len() as int)
    }
}

proof fn lemma_splice_end_independent(text: Seq<char>, ms: Seq<MatchView>, r1: Seq<Seq<char>>, r2: Seq<Seq<char>>, n: nat)
    ensures
        splice_scan(text, ms, r1, n).1 == splice_scan(text, ms, r2, n).1,
    decreases n,
{
    if n > 0 {
        lemma_splice_end_independent(text, ms, r1, r2, (n - 1) as nat);
    }
}

proof fn lemma_range_at(text: &str, ms: Seq<MatchView>, i: int)
    requires
        splice_ranges_ok(text@, ms),
        0 <= i < ms.len(),
    ensures
        ({
            let last_end = splice_scan(text@, ms, no_replacements(ms.len()), i as nat).1;
            ms[i].start > last_end ==> is_str_range(text, last_end as int, ms[i].start as int)
        }),
{
    let _ = splice_scan(text@, ms, no_replacements(ms.len()), i as nat);
}

proof fn lemma_range_fails(text: &str, ms: Seq<MatchView>, i: int)
    requires
        0 <= i < ms.len(),
        ({
            let e = splice_scan(text@, ms, no_replacements(ms.len()), i as nat).1;
            ms[i].start > e && !is_str_range(text, e as int, ms[i].start as int)
        }),
    ensures
        !splice_ranges_ok(text@, ms),
{
}

proof fn lemma_piece(text: &str, piece: &str, start: int, end: int)
    requires
        is_str_range(text, start, end),
        piece.spec_bytes() == text.spec_bytes().subrange(start, end),
    ensures
        piece@ == text_between(text@, start, end),
{
    broadcast use group_utf8_lib;

    assert(decode_utf8(encode_utf8(piece@)) == piece@);
}

/// Replaces each match of `text` by the replacement at the same position,
/// copying the text between matches (a match that starts before the end of
/// the previous one copies nothing).
pub fn splice(text: &str, matches: &[PiiMatch], replacements: &Vec<String>) -> (out: String)
    requires
        replacements.len() == matches.len(),
        splice_ranges_ok(text@, views(matches@)),
    ensures
        out@ == spliced(text@, views(matches@), replacements@.map_values(|r: String| r@)),
{
    let ghost ms = views(matches@);
    let ghost reps = replacements@.map_values(|r: String| r@);
    let ghost empty_reps = no_replacements(ms.len());
    let mut out = String::new();
    let mut last_end: usize = 0;
    let mut i: usize = 0;
    while i < matches.len()
        invariant
            i <= matches.len() == replacements.len(),
            ms == views(matches@),
            reps == replacements@.map_values(|r: String| r@),
            empty_reps == no_replacements(ms.len()),
            splice_ranges_ok(text@, ms),
            (out@, last_end) == splice_scan(text@, ms, reps, i as nat),
        decreases matches.len() - i,
    {
        let m = &matches[i];
        proof {
            assert(ms[i as int] == m@);
            lemma_splice_end_independent(text@, ms, reps, empty_reps, i as nat);
            assert(splice_scan(text@, ms, empty_reps, i as nat).1 == last_end);
            lemma_range_at(text, ms, i as int);
        }
        if m.start > last_end {
            let piece = substring(text, last_end, m.start);
            proof {
                lemma_piece(text, piece, last_end as int, m.start as int);
            }
            out.append(piece);
        }
        out.append(replacements[i].as_str());
        last_end = m.end;
        i = i + 1;
    }
    proof {
        lemma_splice_end_independent(text@, ms, reps, empty_reps, ms.len());
    }
    let len = text.as_bytes().len();
    if last_end < len {
        let piece = substring(text, last_end, len);
        proof {
            lemma_piece(text, piece, last_end as int, len as int);
        }
        out.append(piece);
    }
    out
}

/// `out` is `text` with each match replaced by a replacement the method may
/// write for it.
pub open spec fn is_scrub_of(method: ScrubMethod, text: Seq<char>, ms: Seq<MatchView>, out: Seq<char>) -> bool {
    exists|reps: Seq<Seq<char>>|
        {
            &&& reps.len() == ms.len()
            &&& forall|i: int|
                0 <= i < ms.len() ==> is_replacement(method, ms[i].pii_type, ms[i].value, #[trigger] reps[i])
            &&& out == spliced(text, ms, reps)
        }
}

/// Scrubbing is defined: every copied piece lies on character boundaries
/// and every replacement can be made.
pub open spec fn can_scrub(method: ScrubMethod, text: Seq<char>, ms: Seq<MatchView>) -> bool {
    &&& splice_ranges_ok(text, ms)
    &&& forall|i: int| 0 <= i < ms.len() ==> replacement_defined(method, (#[trigger] ms[i]).pii_type, ms[i].value)
}

/// Every replacement of the matches can be made with the method.
pub open spec fn all_replaceable(method: ScrubMethod, ms: Seq<MatchView>) -> bool {
    forall|i: int| 0 <= i < ms.len() ==> replacement_defined(method, (#[trigger] ms[i]).pii_type, ms[i].value)
}

proof fn lemma_splice_last_end(text: Seq<char>, ms: Seq<MatchView>, reps: Seq<Seq<char>>, n: nat)
    requires
        n <= ms.len(),
    ensures
        splice_scan(text, ms, reps, n).1 == if n == 0 {
            0usize
        } else {
            ms[n - 1].end
        },
    decreases n,
{
    if n > 0 {
        lemma_splice_last_end(text, ms, reps, (n - 1) as nat);
    }
}

/// Matches on character boundaries, free of overlaps, whose replacements
/// can all be made, can be scrubbed into the text.
pub proof fn lemma_scrubbable_on_boundaries(method: ScrubMethod, text: Seq<char>, ms: Seq<MatchView>)
    requires
        on_boundaries(text, ms),
        is_overlap_free(ms),
        all_replaceable(method, ms),
    ensures
        can_scrub(method, text, ms),
{
    broadcast use group_utf8_lib;

    let reps = no_replacements(ms.len());
    let bytes = encode_utf8(text);
    assert(is_char_boundary(bytes, 0));
    assert(is_char_boundary(bytes, bytes.len() as int));
    assert forall|i: int| 0 <= i < ms.len() implies {
        let last_end = (#[trigger] splice_scan(text, ms, reps, i as nat)).1;
        ms[i].start > last_end ==> is_text_range(text, last_end as int, ms[i].start as int)
    } by {
        lemma_splice_last_end(text, ms, reps, i as nat);
        assert(is_text_range(text, ms[i].start as int, ms[i].end as int));
        if i > 0 {
            assert(is_text_range(text, ms[i - 1].start as int, ms[i - 1].end as int));
            assert(ms[i - 1].end <= ms[i].start);
        }
    }
    lemma_splice_last_end(text, ms, reps, ms.len());
    if ms.len() > 0 {
        assert(is_text_range(text, ms[ms.len() - 1].start as int, ms[ms.len() - 1].end as int));
    }
}

/// Whether splicing `matches` into `text` copies only ranges on character
/// boundaries.
pub fn splice_ranges_check(text: &str, matches: &[PiiMatch]) -> (ok: bool)
    ensures
        ok == splice_ranges_ok(text@, views(matches@)),
{
    let ghost ms = views(matches@);
    let ghost reps = no_replacements(ms.len());
    let len = text.as_bytes().len();
    let mut last_end: usize = 0;
    let mut i: usize = 0;
    while i < matches.len()
        invariant
            i <= matches.len(),
            len == text.spec_bytes().len(),
            ms == views(matches@),
            reps == no_replacements(ms.len()),
            last_end == splice_scan(text@, ms, reps, i as nat).1,
            forall|k: int|
                0 <= k < i ==> {
                    let e = (#[trigger] splice_scan(text@, ms, reps, k as nat)).1;
                    ms[k].start > e ==> is_str_range(text, e as int, ms[k].start as int)
                },
        decreases matches.len() - i,
    {
        let m = &matches[i];
        proof {
            assert(ms[i as int] == m@);
        }
        if m.start > last_end {
            if !(m.start <= len && text.is_char_boundary(last_end) && text.is_char_boundary(m.start)) {
                proof {
                    lemma_range_fails(text, ms, i as int);
                }
                return false;
            }
        }
        last_end = m.end;
        i = i + 1;
    }
    if last_end < len {
        if !(text.is_char_boundary(last_end) && text.is_char_boundary(len)) {
            return false;
        }
    }
    true
}

/// Whether masking `value` as type `t` can be done.
fn mask_is_defined(t: PiiType, value: &str) -> (ok: bool)
    ensures
        ok == mask_defined(t, value@),
{
    if t != PiiType::Email {
        return true;
    }
    match find_byte(value.as_bytes(), 64u8) {
        Some(at) => if at > 2 {
            value.is_char_boundary(1)
        } else {
            true
        },
        None => true,
    }
}

// ---------------------------------------------------------------------------
// The scrubber
// ---------------------------------------------------------------------------

proof fn lemma_ascii_prefix(s: Seq<char>, k: int)
    requires
        is_ascii_chars(s),
        0 <= k <= s.len(),
    ensures
        encode_utf8(s).len() == s.len(),
        is_char_boundary(encode_utf8(s), k),
        encode_utf8(s).subrange(0, k) == encode_utf8(s.take(k)),
{
    broadcast use group_utf8_lib;

    is_ascii_chars_encode_utf8(s);
    let t = s.take(k);
    assert(is_ascii_chars(t));
    is_ascii_chars_encode_utf8(t);
    assert(encode_utf8(s).subrange(0, k) =~= encode_utf8(t));
    if k < s.len() {
        is_char_boundary_iff_not_is_continuation_byte(encode_utf8(s), k);
        assert(encode_utf8(s)[k] == s[k] as u8);
    } else {
        is_char_boundary_start_end_of_seq(encode_utf8(s));
    }
}

proof fn lemma_hex_chars(data: Seq<u8>)
    ensures
        hex_chars(data).len() == 2 * data.len(),
        is_ascii_chars(hex_chars(data)),
    decreases data.len(),
{
    if data.len() > 0 {
        lemma_hex_chars(data.drop_last());
        let h = hex_chars(data.drop_last());
        let a = hex_digit((data.last() / 16) as nat);
        let b = hex_digit((data.last() % 16) as nat);
        assert forall|i: int| 0 <= i < h.push(a).push(b).len() implies '\0' <= #[trigger] h.push(a).push(b)[i] <= '\u{7f}' by {
            if i < h.len() {
                assert(h.push(a).push(b)[i] == h[i]);
            }
        }
    }
}

/// The first byte `b` in `bytes`, if any.
fn find_byte(bytes: &[u8], b: u8) -> (found: Option<usize>)
    ensures
        found == match first_index(bytes@, b) {
            Some(i) => Some(i as usize),
            None => None::<usize>,
        },
        found matches Some(i) ==> i < bytes.len() && bytes@[i as int] == b,
{
    let mut i: usize = 0;
    while i < bytes.len()
        invariant
            i <= bytes.len(),
            forall|j: int| 0 <= j < i ==> bytes@[j] != b,
        decreases bytes.len() - i,
    {
        if bytes[i] == b {
            proof {
                let w = i as int;
                assert(0 <= w < bytes@.len() && bytes@[w] == b && forall|j: int| 0 <= j < w ==> bytes@[j] != b);
                let c = choose|c: int| 0 <= c < bytes@.len() && bytes@[c] == b && forall|j: int| 0 <= j < c ==> bytes@[j] != b;
                if c < w {
                } else if w < c {
                }
                assert(c == w);
            }
            return Some(i);
        }
        i = i + 1;
    }
    None
}

/// Replaces PII according to its configuration.
pub struct Scrubber {
    config: ScrubConfig,
}

impl Scrubber {
    /// The configured method.
    pub closed spec fn method(&self) -> ScrubMethod {
        self.config.method
    }

    pub fn new(config: ScrubConfig) -> (scrubber: Self)
        ensures
            scrubber.method() == config.method,
    {
        Scrubber { config }
    }

    /// The placeholder that replaces a match under the Remove method.
    pub fn get_removal_placeholder(&self, pii_type: PiiType) -> (text: String)
        ensures
            text@ == placeholder(pii_type),
    {
        let label = match pii_type {
            PiiType::Email => "EMAIL",
            PiiType::Phone => "PHONE NUMBER",
            PiiType::SSN => "SOCIAL SECURITY NUMBER",
            PiiType::CreditCard => "CREDIT CARD NUMBER",
            PiiType::IPAddress => "IP ADDRESS",
            PiiType::DateOfBirth => "DATE OF BIRTH",
            PiiType::Address => "STREET ADDRESS",
            PiiType::Name => "PERSON NAME",
            PiiType::Passport => "PASSPORT NUMBER",
            PiiType::DriversLicense => "DRIVER'S LICENSE",
            PiiType::BankAccount => "BANK ACCOUNT NUMBER",
            PiiType::Organization => "ORGANIZATION NAME",
        };
        let mut text = String::new();
        text.append("[");
        text.append(label);
        text.append(" REMOVED]");
        text
    }

    /// The Hash method's replacement: `#` and the first 12 hexadecimal digits
    /// of the value's SHA-256 digest.
    pub fn hash_value(&self, value: &str) -> (text: String)
        ensures
            text@ == hashed(value@),
    {
        let digest = sha256(value.as_bytes());
        let hex = hex_encode(digest.as_slice());
        proof {
            lemma_hex_chars(digest@);
            lemma_ascii_prefix(hex@, 12);
            lemma_ascii_prefix(hex@, 0);
        }
        let hex_str = hex.as_str();
        proof {
            lemma_ascii_prefix(hex_str@, 12);
            lemma_ascii_prefix(hex_str@, 0);
        }
        let first = substring(hex_str, 0, 12);
        proof {
            broadcast use group_utf8_lib;

            assert(decode_utf8(encode_utf8(first@)) == first@);
            assert(decode_utf8(encode_utf8(hex_str@.take(12))) == hex_str@.take(12));
        }
        let mut text = String::new();
        push_char(&mut text, '#');
        text.append(first);
        text
    }

    fn push_last_four(text: &mut String, digits: &Vec<char>)
        requires
            digits.len() >= 4,
        ensures
            final(text)@ == old(text)@ + digits@.subrange(digits.len() - 4, digits.len() as int),
    {
        let n = digits.len();
        let mut k = n - 4;
        while k < n
            invariant
                4 <= n == digits.len(),
                n - 4 <= k <= n,
                text@ == old(text)@ + digits@.subrange(n - 4, k as int),
            decreases n - k,
        {
            push_char(text, digits[k]);
            proof {
                assert(digits@.subrange(n - 4, k + 1) =~= digits@.subrange(n - 4, k as int).push(digits@[k as int]));
            }
            k = k + 1;
        }
    }

    /// The Mask method's replacement. Organizations are masked by a random
    /// company name; for other types the result is `masked`.
    pub fn mask_value(&self, pii_type: PiiType, value: &str) -> (text: String)
        requires
            mask_defined(pii_type, value@),
        ensures
            masked(pii_type, value@) matches Some(m) ==> text@ == m,
            masked(pii_type, value@) is None ==> fake_company_shape(text@),
    {
        proof {
            broadcast use group_utf8_lib;
        }
        match pii_type {
            PiiType::Email => {
                let bytes = value.as_bytes();
                match find_byte(bytes, 64u8) {
                    Some(at) => {
                        let len = bytes.len();
                        proof {
                            broadcast use group_utf8_lib;

                            is_char_boundary_iff_not_is_continuation_byte(value.spec_bytes(), at as int);
                            is_char_boundary_start_end_of_seq(value.spec_bytes());
                        }
                        let domain = substring(value, at, len);
                        proof {
                            lemma_piece(value, domain, at as int, len as int);
                        }
                        let mut text = String::new();
                        if at > 2 {
                            proof {
                                is_char_boundary_start_end_of_seq(value.spec_bytes());
                            }
                            let first = substring(value, 0, 1);
                            proof {
                                lemma_piece(value, first, 0, 1);
                            }
                            text.append(first);
                            text.append("***");
                            text.append(domain);
                        } else {
                            text.append("***");
                            text.append(domain);
                        }
                        text
                    },
                    None => {
                        let mut text = String::new();
                        text.append("***@***.***");
                        text
                    },
                }
            },
            PiiType::Phone => {
                let digits = ascii_digits(value);
                let mut text = String::new();
                if digits.len() >= 4 {
                    text.append("***-***-");
                    Self::push_last_four(&mut text, &digits);
                } else {
                    text.append("***-***-****");
                }
                text
            },
            PiiType::SSN => {
                let mut text = String::new();
                text.append("***-**-****");
                text
            },
            PiiType::CreditCard => {
                let digits = ascii_digits(value);
                let mut text = String::new();
                if digits.len() >= 4 {
                    text.append("****-****-****-");
                    Self::push_last_four(&mut text, &digits);
                } else {
                    text.append("****-****-****-****");
                }
                text
            },
            PiiType::IPAddress => {
                let mut text = String::new();
                text.append("***.***.***.***");
                text
            },
            PiiType::DateOfBirth => {
                let mut text = String::new();
                text.append("**/**/****");
                text
            },
            PiiType::Organization => fake_company_name(),
            _ => {
                let len = value.as_bytes().len();
                let count = if len < 20 {
                    len
                } else {
                    20
                };
                let mut text = String::new();
                let mut k: usize = 0;
                while k < count
                    invariant
                        k <= count,
                        text@ == Seq::new(k as nat, |i: int| '*'),
                    decreases count - k,
                {
                    push_char(&mut text, '*');
                    proof {
                        assert(Seq::new((k + 1) as nat, |i: int| '*') =~= Seq::new(k as nat, |i: int| '*').push('*'));
                    }
                    k = k + 1;
                }
                text
            },
        }
    }

    /// The Fake method's stand-in: random text of the stated shape, or text
    /// from the fake crate.
    pub fn generate_fake(&self, pii_type: PiiType, value: &str) -> (text: String)
        ensures
            fake_shape(pii_type, text@),
    {
        let mut rng = thread_rng();
        match pii_type {
            PiiType::Email => fake_safe_email(),
            PiiType::Phone => fake_phone_number(),
            PiiType::SSN => {
                let a = random_in(&mut rng, 100, 899);
                let b = random_in(&mut rng, 1, 99);
                let c = random_in(&mut rng, 1, 9999);
                let mut text = String::new();
                push_decimal(&mut text, a, 3);
                text.append("-");
                push_decimal(&mut text, b, 2);
                text.append("-");
                push_decimal(&mut text, c, 4);
                proof {
                    assert(text@ =~= padded_decimal(a as nat, 3) + "-"@ + padded_decimal(b as nat, 2) + "-"@ + padded_decimal(c as nat, 4));
                }
                text
            },
            PiiType::CreditCard => {
                let a = random_in(&mut rng, 0, 999);
                let b = random_in(&mut rng, 0, 9999);
                let c = random_in(&mut rng, 0, 9999);
                let d = random_in(&mut rng, 0, 9999);
                let mut text = String::new();
                text.append("4");
                push_decimal(&mut text, a, 3);
                text.append("-");
                push_decimal(&mut text, b, 4);
                text.append("-");
                push_decimal(&mut text, c, 4);
                text.append("-");
                push_decimal(&mut text, d, 4);
                proof {
                    assert(text@ =~= "4"@ + padded_decimal(a as nat, 3) + "-"@ + padded_decimal(b as nat, 4) + "-"@ + padded_decimal(c as nat, 4) + "-"@ + padded_decimal(d as nat, 4));
                }
                text
            },
            PiiType::IPAddress => {
                let a = random_in(&mut rng, 1, 255);
                let b = random_in(&mut rng, 0, 255);
                let c = random_in(&mut rng, 0, 255);
                let d = random_in(&mut rng, 1, 255);
                let mut text = String::new();
                push_decimal(&mut text, a, 0);
                text.append(".");
                push_decimal(&mut text, b, 0);
                text.append(".");
                push_decimal(&mut text, c, 0);
                text.append(".");
                push_decimal(&mut text, d, 0);
                proof {
                    assert(text@ =~= decimal_chars(a as nat) + "."@ + decimal_chars(b as nat) + "."@ + decimal_chars(c as nat) + "."@ + decimal_chars(d as nat));
                }
                text
            },
            PiiType::DateOfBirth => {
                let m = random_in(&mut rng, 1, 12);
                let d = random_in(&mut rng, 1, 28);
                let y = random_in(&mut rng, 1950, 2005);
                let mut text = String::new();
                push_decimal(&mut text, m, 2);
                text.append("/");
                push_decimal(&mut text, d, 2);
                text.append("/");
                push_decimal(&mut text, y, 4);
                proof {
                    assert(text@ =~= padded_decimal(m as nat, 2) + "/"@ + padded_decimal(d as nat, 2) + "/"@ + padded_decimal(y as nat, 4));
                }
                text
            },
            PiiType::Address => fake_secondary_address(),
            PiiType::Name => fake_name(),
            PiiType::Passport => {
                let n = random_in(&mut rng, 10000000, 99999999);
                let mut text = String::new();
                text.append("P");
                push_decimal(&mut text, n, 8);
                text
            },
            PiiType::DriversLicense => {
                let n = random_in(&mut rng, 1000000, 9999999);
                let mut text = String::new();
                text.append("DL");
                push_decimal(&mut text, n, 7);
                text
            },
            PiiType::BankAccount => {
                let n = random_in(&mut rng, 100000000000, 999999999999);
                let mut text = String::new();
                push_decimal(&mut text, n, 12);
                text
            },
            PiiType::Organization => fake_company_name(),
        }
    }

    /// The replacement of one match under the configured method.
    pub fn get_replacement(&self, pii_type: PiiType, value: &str) -> (text: String)
        requires
            replacement_defined(self.method(), pii_type, value@),
        ensures
            is_replacement(self.method(), pii_type, value@, text@),
    {
        match self.config.method {
            ScrubMethod::Remove => self.get_removal_placeholder(pii_type),
            ScrubMethod::Hash => self.hash_value(value),
            ScrubMethod::Fake => self.generate_fake(pii_type, value),
            ScrubMethod::Mask => self.mask_value(pii_type, value),
        }
    }

    /// Replaces each match of `text` by its replacement under the configured
    /// method and keeps the rest of the text; the matches are taken in
    /// order, and a match that starts before the end of the previous one
    /// copies no text.
    pub fn scrub_text(&self, text: &str, matches: &[PiiMatch]) -> (out: String)
        requires
            splice_ranges_ok(text@, views(matches@)),
            forall|i: int|
                0 <= i < matches@.len() ==> replacement_defined(
                    self.method(),
                    #[trigger] matches@[i].pii_type,
                    matches@[i].value@,
                ),
        ensures
            is_scrub_of(self.method(), text@, views(matches@), out@),
    {
        let mut reps: Vec<String> = Vec::new();
        let mut i: usize = 0;
        while i < matches.len()
            invariant
                i <= matches.len(),
                reps.len() == i,
                forall|k: int|
                    0 <= k < matches@.len() ==> replacement_defined(
                        self.method(),
                        #[trigger] matches@[k].pii_type,
                        matches@[k].value@,
                    ),
                forall|k: int|
                    0 <= k < i ==> is_replacement(
                        self.method(),
                        matches@[k].pii_type,
                        matches@[k].value@,
                        (#[trigger] reps@[k])@,
                    ),
            decreases matches.len() - i,
        {
            let r = self.get_replacement(matches[i].pii_type, matches[i].value.as_str());
            reps.push(r);
            i = i + 1;
        }
        let out = splice(text, matches, &reps);
        proof {
            let rs = reps@.map_values(|r: String| r@);
            let ms = views(matches@);
            assert forall|i: int| 0 <= i < ms.len() implies is_replacement(
                self.method(),
                ms[i].pii_type,
                ms[i].value,
                #[trigger] rs[i],
            ) by {
                assert(rs[i] == reps@[i]@);
                assert(ms[i] == matches@[i]@);
            }
            assert(rs.len() == ms.len());
        }
        out
    }

    /// Scrubbing when it is defined: `None` when a piece of the text to copy
    /// does not lie on character boundaries or a replacement cannot be made.
    pub fn scrub_text_checked(&self, text: &str, matches: &[PiiMatch]) -> (out: Option<String>)
        ensures
            out is Some <==> can_scrub(self.method(), text@, views(matches@)),
            out matches Some(o) ==> is_scrub_of(self.method(), text@, views(matches@), o@),
    {
        if !splice_ranges_check(text, matches) {
            return None;
        }
        let mut i: usize = 0;
        while i < matches.len()
            invariant
                i <= matches.len(),
                forall|k: int|
                    0 <= k < i ==> replacement_defined(
                        self.method(),
                        #[trigger] matches@[k].pii_type,
                        matches@[k].value@,
                    ),
            decreases matches.len() - i,
        {
            if self.config.method == ScrubMethod::Mask {
                if !mask_is_defined(matches[i].pii_type, matches[i].value.as_str()) {
                    proof {
                        assert(views(matches@)[i as int] == matches@[i as int]@);
                    }
                    return None;
                }
            }
            i = i + 1;
        }
        proof {
            assert forall|k: int| 0 <= k < views(matches@).len() implies replacement_defined(
                self.method(),
                (#[trigger] views(matches@)[k]).pii_type,
                views(matches@)[k].value,
            ) by {
                assert(views(matches@)[k] == matches@[k]@);
            }
        }
        Some(self.scrub_text(text, matches))
    }
}

/// A text scrubbed without matches comes out unchanged.
pub proof fn law_no_matches_no_change(method: ScrubMethod, text: Seq<char>, out: Seq<char>)
    requires
        is_scrub_of(method, text, seq![], out),
    ensures
        out == text,
{
    broadcast use group_utf8_lib;

    let reps = choose|reps: Seq<Seq<char>>|
        {
            &&& reps.len() == Seq::<MatchView>::empty().len()
            &&& forall|i: int|
                0 <= i < Seq::<MatchView>::empty().len() ==> is_replacement(
                    method,
                    Seq::<MatchView>::empty()[i].pii_type,
                    Seq::<MatchView>::empty()[i].value,
                    #[trigger] reps[i],
                )
            &&& out == spliced(text, seq![], reps)
        };
    let bytes = encode_utf8(text);
    assert(bytes.subrange(0, bytes.len() as int) =~= bytes);
    if bytes.len() == 0 {
        assert(decode_utf8(bytes) =~= Seq::<char>::empty());
    }
    assert(out =~= text);
}

/// The matches' replacements that the method may write are fixed: Remove,
/// Hash, and Mask but for organizations.
pub open spec fn replacements_fixed(method: ScrubMethod, ms: Seq<MatchView>) -> bool {
    &&& method != ScrubMethod::Fake
    &&& method == ScrubMethod::Mask ==> forall|i: int|
        0 <= i < ms.len() ==> (#[trigger] ms[i]).pii_type != PiiType::Organization
}

proof fn lemma_splice_scan_same(text: Seq<char>, ms: Seq<MatchView>, r1: Seq<Seq<char>>, r2: Seq<Seq<char>>, n: nat)
    requires
        n <= ms.len(),
        r1.len() == ms.len(),
        r2.len() == ms.len(),
        forall|i: int| 0 <= i < ms.len() ==> r1[i] == r2[i],
    ensures
        splice_scan(text, ms, r1, n) == splice_scan(text, ms, r2, n),
    decreases n,
{
    if n > 0 {
        lemma_splice_scan_same(text, ms, r1, r2, (n - 1) as nat);
    }
}

/// Scrubbing with Remove, Hash, or Mask (with no organization among the
/// matches) is deterministic: the same text and matches give the same
/// output.
pub proof fn law_fixed_methods_are_deterministic(
    method: ScrubMethod,
    text: Seq<char>,
    ms: Seq<MatchView>,
    out1: Seq<char>,
    out2: Seq<char>,
)
    requires
        replacements_fixed(method, ms),
        is_scrub_of(method, text, ms, out1),
        is_scrub_of(method, text, ms, out2),
    ensures
        out1 == out2,
{
    let r1 = choose|reps: Seq<Seq<char>>|
        {
            &&& reps.len() == ms.len()
            &&& forall|i: int|
                0 <= i < ms.len() ==> is_replacement(method, ms[i].pii_type, ms[i].value, #[trigger] reps[i])
            &&& out1 == spliced(text, ms, reps)
        };
    let r2 = choose|reps: Seq<Seq<char>>|
        {
            &&& reps.len() == ms.len()
            &&& forall|i: int|
                0 <= i < ms.len() ==> is_replacement(method, ms[i].pii_type, ms[i].value, #[trigger] reps[i])
            &&& out2 == spliced(text, ms, reps)
        };
    assert forall|i: int| 0 <= i < ms.len() implies r1[i] == r2[i] by {
        assert(is_replacement(method, ms[i].pii_type, ms[i].value, r1[i]));
        assert(is_replacement(method, ms[i].pii_type, ms[i].value, r2[i]));
        if method == ScrubMethod::Mask {
            assert(ms[i].pii_type != PiiType::Organization);
        }
    }
    lemma_splice_scan_same(text, ms, r1, r2, ms.len());
}

/// An ASCII letter in upper case; other characters as they are.
pub open spec fn ascii_upper_char(c: char) -> char {
    if 'a' <= c <= 'z' {
        ((c as int) - 32) as char
    } else {
        c
    }
}

/// The text with its ASCII letters in upper case.
pub open spec fn ascii_upper(s: Seq<char>) -> Seq<char> {
    s.map_values(|c: char| ascii_upper_char(c))
}

/// The Remove placeholder of every type but e-mail is its display name in
/// upper case in brackets, followed by ` REMOVED` (`[PERSON NAME REMOVED]`);
/// an e-mail address is `[EMAIL REMOVED]`.
pub proof fn law_removal_label_is_upper_display_name(t: PiiType)
    ensures
        t != PiiType::Email ==> placeholder(t) == "["@ + ascii_upper(display_name_of(t)) + " REMOVED]"@,
        t == PiiType::Email ==> placeholder(t) == "["@ + "EMAIL"@ + " REMOVED]"@,
{
    match t {
        PiiType::Email => {},
        PiiType::Phone => {
            reveal_strlit("Phone Number");
            reveal_strlit("PHONE NUMBER");
            assert(removal_label(t) =~= ascii_upper(display_name_of(t)));
        },
        PiiType::SSN => {
            reveal_strlit("Social Security Number");
            reveal_strlit("SOCIAL SECURITY NUMBER");
            assert(removal_label(t) =~= ascii_upper(display_name_of(t)));
        },
        PiiType::CreditCard => {
            reveal_strlit("Credit Card Number");
            reveal_strlit("CREDIT CARD NUMBER");
            assert(removal_label(t) =~= ascii_upper(display_name_of(t)));
        },
        PiiType::IPAddress => {
            reveal_strlit("IP Address");
            reveal_strlit("IP ADDRESS");
            assert(removal_label(t) =~= ascii_upper(display_name_of(t)));
        },
        PiiType::DateOfBirth => {
            reveal_strlit("Date of Birth");
            reveal_strlit("DATE OF BIRTH");
            assert(removal_label(t) =~= ascii_upper(display_name_of(t)));
        },
        PiiType::Address => {
            reveal_strlit("Street Address");
            reveal_strlit("STREET ADDRESS");
            assert(removal_label(t) =~= ascii_upper(display_name_of(t)));
        },
        PiiType::Name => {
            reveal_strlit("Person Name");
            reveal_strlit("PERSON NAME");
            assert(removal_label(t) =~= ascii_upper(display_name_of(t)));
        },
        PiiType::Passport => {
            reveal_strlit("Passport Number");
            reveal_strlit("PASSPORT NUMBER");
            assert(removal_label(t) =~= ascii_upper(display_name_of(t)));
        },
        PiiType::DriversLicense => {
            reveal_strlit("Driver's License");
            reveal_strlit("DRIVER'S LICENSE");
            assert(removal_label(t) =~= ascii_upper(display_name_of(t)));
        },
        PiiType::BankAccount => {
            reveal_strlit("Bank Account Number");
            reveal_strlit("BANK ACCOUNT NUMBER");
            assert(removal_label(t) =~= ascii_upper(display_name_of(t)));
        },
        PiiType::Organization => {
            reveal_strlit("Organization Name");
            reveal_strlit("ORGANIZATION NAME");
            assert(removal_label(t) =~= ascii_upper(display_name_of(t)));
        },
    }
}

/// Different types get different Remove placeholders.
pub proof fn law_removal_placeholders_are_distinct(t1: PiiType, t2: PiiType)
    requires
        t1 != t2,
    ensures
        placeholder(t1) != placeholder(t2),
{
    reveal_strlit("EMAIL");
    reveal_strlit("PHONE NUMBER");
    reveal_strlit("SOCIAL SECURITY NUMBER");
    reveal_strlit("CREDIT CARD NUMBER");
    reveal_strlit("IP ADDRESS");
    reveal_strlit("DATE OF BIRTH");
    reveal_strlit("STREET ADDRESS");
    reveal_strlit("PERSON NAME");
    reveal_strlit("PASSPORT NUMBER");
    reveal_strlit("DRIVER'S LICENSE");
    reveal_strlit("BANK ACCOUNT NUMBER");
    reveal_strlit("ORGANIZATION NAME");
    reveal_strlit("[");
    reveal_strlit(" REMOVED]");
    assert(removal_label(t1).len() != removal_label(t2).len());
    assert(placeholder(t1).len() != placeholder(t2).len());
}

} // verus!
