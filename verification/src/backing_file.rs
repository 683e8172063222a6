//! The names of backing files, and the search for them in a directory.

use vstd::prelude::*;

use crate::random::system_random;
use crate::text::ends_with;

verus! {

/// Whether a name is that of a backing file.
pub open spec fn is_raw_name(name: Seq<char>) -> bool {
    ".raw"@.is_suffix_of(name)
}

/// Whether a character is a hexadecimal digit, in lower case.
pub open spec fn is_hex_digit(c: char) -> bool {
    '0' <= c <= '9' || 'a' <= c <= 'f'
}

/// Whether a text is that of a random UUID: hexadecimal digits in groups of
/// eight, four, four, four and twelve, the third beginning with the version
/// and the fourth with the variant.
pub open spec fn is_random_uuid(text: Seq<char>) -> bool {
    &&& text.len() == 36
    &&& forall|i: int|
        0 <= i < 36 ==> if i == 8 || i == 13 || i == 18 || i == 23 {
            #[trigger] text[i] == '-'
        } else {
            is_hex_digit(text[i])
        }
    &&& text[14] == '4'
    &&& text[19] == '8' || text[19] == '9' || text[19] == 'a' || text[19] == 'b'
}

/// A hexadecimal digit, in lower case.
pub open spec fn hex_digit(n: int) -> char {
    if n < 10 {
        ('0' as int + n) as char
    } else {
        ('a' as int + n - 10) as char
    }
}

/// Bytes in hexadecimal digits, two for each.
pub open spec fn hex_text(bytes: Seq<u8>) -> Seq<char> {
    Seq::new(
        2 * bytes.len(),
        |i: int|
            hex_digit(
                if i % 2 == 0 {
                    bytes[i / 2] as int / 16
                } else {
                    bytes[i / 2] as int % 16
                },
            ),
    )
}

/// The bytes of the UUID that is made of random bytes: the version stands in
/// the high bits of the seventh, the variant in those of the ninth.
pub open spec fn uuid_bytes(random: Seq<u8>) -> Seq<u8> {
    random.update(6, (random[6] & 0x0f) | 0x40).update(8, (random[8] & 0x3f) | 0x80)
}

/// The UUID that is made of random bytes, as a text.
pub open spec fn uuid_text(random: Seq<u8>) -> Seq<char> {
    let digits = hex_text(uuid_bytes(random));
    digits.take(8) + seq!['-'] + digits.subrange(8, 12) + seq!['-'] + digits.subrange(12, 16)
        + seq!['-'] + digits.subrange(16, 20) + seq!['-'] + digits.subrange(20, 32)
}

/// Whether a name is one that a new backing file is given.
pub open spec fn is_new_file_name(name: Seq<char>) -> bool {
    exists|random: Seq<u8>| random.len() == 16 && name == #[trigger] uuid_text(random) + ".raw"@
}

/// Whether a name is a random UUID with the ending of a backing file.
pub open spec fn has_uuid_form(name: Seq<char>) -> bool {
    exists|uuid: Seq<char>| #[trigger] is_random_uuid(uuid) && name == uuid + ".raw"@
}

/// Calls `uuid::Builder::from_random_bytes`, `into_uuid` on what it gives, and
/// `to_string` on that. Claims the text: that of the bytes, with the version
/// and the variant set.
#[verifier::external_body]
fn uuid_of(random: [u8; 16]) -> (text: String)
    ensures
        text@ == uuid_text(random@),
{
    uuid::Builder::from_random_bytes(random).into_uuid().to_string()
}

/// The name of the backing file that goes with random bytes.
pub fn empty_file_name(random: [u8; 16]) -> (name: String)
    ensures
        name@ == uuid_text(random@) + ".raw"@,
{
    uuid_of(random).concat(".raw")
}

/// A new name for a backing file; none where the system has no random bytes to
/// give.
pub fn new_empty_file_name() -> (name: Option<String>)
    ensures
        match name {
            Some(n) => is_new_file_name(n@),
            None => true,
        },
{
    let mut random: [u8; 16] = [0; 16];
    match system_random(&mut random) {
        Ok(()) => {
            let name = empty_file_name(random);
            assert(is_new_file_name(name@));
            Some(name)
        },
        Err(_) => None,
    }
}

/// What the host tells of a directory.
#[derive(Debug)]
pub enum ScanEvent {
    /// The next entry has that name.
    Entry { path: String },
    /// The entry of that name has been opened.
    Opened { path: String, handle: u32 },
    /// There is no further entry.
    End,
}

/// What is asked of the host.
#[derive(Debug, PartialEq, Eq)]
pub enum ScanAction {
    /// Tell the next entry.
    Next,
    /// Open the entry of that name.
    Open { path: String },
    /// Nothing: the search is over.
    Finish,
}

/// A search for backing files in a directory, and what it has found.
#[derive(Debug)]
pub struct RawFileScan {
    /// The backing files that have been opened, and their handles.
    pub found: Vec<(String, u32)>,
}

/// The names and the handles of a list of files.
pub open spec fn found_files(found: Seq<(String, u32)>) -> Seq<(Seq<char>, u32)> {
    found.map_values(|f: (String, u32)| (f.0@, f.1))
}

impl RawFileScan {
    /// A search that has found nothing yet.
    pub fn new() -> (scan: Self)
        ensures
            scan.found@.len() == 0,
    {
        RawFileScan { found: Vec::new() }
    }

    /// One step of the search: entries that are no backing files are passed
    /// over, the others are opened and kept.
    pub fn entries_to_vec(&mut self, event: ScanEvent) -> (action: ScanAction)
        ensures
            match event {
                ScanEvent::Entry { path } => {
                    &&& final(self).found@ == old(self).found@
                    &&& if is_raw_name(path@) {
                        action matches ScanAction::Open { path: asked } && asked@ == path@
                    } else {
                        action is Next
                    }
                    &&& action is Open <==> ".raw"@.is_suffix_of(path@)
                },
                ScanEvent::Opened { path, handle } => {
                    &&& found_files(final(self).found@) == found_files(old(self).found@).push(
                        (path@, handle),
                    )
                    &&& final(self).found@.drop_last() == old(self).found@
                    &&& final(self).found@.last().0@ == path@
                    &&& final(self).found@.last().1 == handle
                    &&& action is Next
                },
                ScanEvent::End => final(self).found@ == old(self).found@ && action is Finish,
            },
    {
        match event {
            ScanEvent::Entry { path } => {
                if ends_with(path.as_str(), ".raw") {
                    ScanAction::Open { path }
                } else {
                    ScanAction::Next
                }
            },
            ScanEvent::Opened { path, handle } => {
                let ghost before = self.found@;
                self.found.push((path, handle));
                assert(found_files(self.found@) =~= found_files(before).push((path@, handle)));
                assert(self.found@.drop_last() =~= before);
                ScanAction::Next
            },
            ScanEvent::End => ScanAction::Finish,
        }
    }
}

/// What a search has found after an entry of a directory, with the handle that
/// it gets if it is opened.
pub open spec fn after_entry(
    found: Seq<(Seq<char>, u32)>,
    entry: (Seq<char>, u32),
) -> Seq<(Seq<char>, u32)> {
    if is_raw_name(entry.0) {
        found.push(entry)
    } else {
        found
    }
}

/// What a search has found after some entries of a directory.
pub open spec fn after_entries(entries: Seq<(Seq<char>, u32)>) -> Seq<(Seq<char>, u32)>
    decreases entries.len(),
{
    if entries.len() == 0 {
        Seq::empty()
    } else {
        after_entry(after_entries(entries.drop_last()), entries.last())
    }
}

/// A search finds the backing files of a directory, all of them and nothing
/// else, in the order of the entries.
pub proof fn law_search_finds_the_backing_files(entries: Seq<(Seq<char>, u32)>)
    ensures
        after_entries(entries) == entries.filter(|e: (Seq<char>, u32)| is_raw_name(e.0)),
    decreases entries.len(),
{
    reveal(Seq::filter);
    if entries.len() > 0 {
        law_search_finds_the_backing_files(entries.drop_last());
    }
}

/// The text of a UUID that is made of random bytes has the form of a random
/// UUID.
pub proof fn law_new_uuids_are_random(random: Seq<u8>)
    requires
        random.len() == 16,
    ensures
        is_random_uuid(uuid_text(random)),
{
    let bytes = uuid_bytes(random);
    let digits = hex_text(bytes);
    let text = uuid_text(random);
    let r6 = random[6];
    let r8 = random[8];
    assert(((r6 & 0x0f) | 0x40) / 16 == 4) by (bit_vector);
    assert(8 <= ((r8 & 0x3f) | 0x80) / 16 <= 11) by (bit_vector);
    assert forall|i: int| 0 <= i < 32 implies is_hex_digit(#[trigger] digits[i]) by {}
    assert forall|i: int| 0 <= i < 36 implies if i == 8 || i == 13 || i == 18 || i == 23 {
        #[trigger] text[i] == '-'
    } else {
        is_hex_digit(text[i])
    } by {
        if i < 8 {
            assert(text[i] == digits[i]);
        } else if 8 < i < 13 {
            assert(text[i] == digits[i - 1]);
        } else if 13 < i < 18 {
            assert(text[i] == digits[i - 2]);
        } else if 18 < i < 23 {
            assert(text[i] == digits[i - 3]);
        } else if 23 < i {
            assert(text[i] == digits[i - 4]);
        }
    }
    assert(text[14] == digits[12]);
    assert(text[19] == digits[16]);
}

/// A new name has the form of a UUID, and is that of a backing file: a search
/// of the directory finds it.
pub proof fn law_new_names_are_found(name: Seq<char>)
    requires
        is_new_file_name(name),
    ensures
        has_uuid_form(name),
        is_raw_name(name),
{
    let random = choose|random: Seq<u8>|
        random.len() == 16 && name == #[trigger] uuid_text(random) + ".raw"@;
    law_new_uuids_are_random(random);
    assert(".raw"@ =~= name.subrange(name.len() - ".raw"@.len(), name.len() as int));
}

/// The names of backing files are those that are a text and `.raw`, whatever
/// the text is.
pub proof fn law_raw_names_end_in_raw(stem: Seq<char>, name: Seq<char>)
    ensures
        is_raw_name(stem + ".raw"@),
        is_raw_name(name) ==> exists|s: Seq<char>| name == #[trigger] (s + ".raw"@),
{
    let whole = stem + ".raw"@;
    assert(".raw"@ =~= whole.subrange(whole.len() - ".raw"@.len(), whole.len() as int));
    if is_raw_name(name) {
        let s = name.take(name.len() - ".raw"@.len());
        assert(name =~= s + ".raw"@);
    }
}

/// Random bytes that differ make names that differ: where two names are the
/// same, so are all their random bits.
pub proof fn law_different_bytes_make_different_names(a: Seq<u8>, b: Seq<u8>)
    requires
        a.len() == 16,
        b.len() == 16,
        uuid_text(a) + ".raw"@ == uuid_text(b) + ".raw"@,
    ensures
        forall|i: int| 0 <= i < 16 && i != 6 && i != 8 ==> #[trigger] a[i] == b[i],
        a[6] % 16 == b[6] % 16,
        a[8] % 64 == b[8] % 64,
{
    let x = uuid_bytes(a);
    let y = uuid_bytes(b);
    let s = uuid_text(a);
    let t = uuid_text(b);
    assert(s.len() == 36 && t.len() == 36);
    assert((s + ".raw"@).take(36) =~= s);
    assert((t + ".raw"@).take(36) =~= t);
    assert forall|i: int| 0 <= i < 32 implies hex_text(x)[i] == hex_text(y)[i] by {
        if i < 8 {
            assert(s[i] == hex_text(x)[i] && t[i] == hex_text(y)[i]);
        } else if i < 12 {
            assert(s[i + 1] == hex_text(x)[i] && t[i + 1] == hex_text(y)[i]);
        } else if i < 16 {
            assert(s[i + 2] == hex_text(x)[i] && t[i + 2] == hex_text(y)[i]);
        } else if i < 20 {
            assert(s[i + 3] == hex_text(x)[i] && t[i + 3] == hex_text(y)[i]);
        } else {
            assert(s[i + 4] == hex_text(x)[i] && t[i + 4] == hex_text(y)[i]);
        }
    }
    assert forall|k: int| 0 <= k < 16 implies #[trigger] x[k] == y[k] by {
        assert(hex_text(x)[2 * k] == hex_text(y)[2 * k]);
        assert(hex_text(x)[2 * k + 1] == hex_text(y)[2 * k + 1]);
        assert((2 * k) / 2 == k && (2 * k + 1) / 2 == k);
        assert(hex_text(x)[2 * k] == hex_digit(x[k] as int / 16));
        assert(hex_text(y)[2 * k] == hex_digit(y[k] as int / 16));
        assert(hex_text(x)[2 * k + 1] == hex_digit(x[k] as int % 16));
        assert(hex_text(y)[2 * k + 1] == hex_digit(y[k] as int % 16));
    }
    assert forall|i: int| 0 <= i < 16 && i != 6 && i != 8 implies #[trigger] a[i] == b[i] by {
        assert(x[i] == a[i] && y[i] == b[i]);
    }
    let a6 = a[6];
    let b6 = b[6];
    let a8 = a[8];
    let b8 = b[8];
    assert(x[6] == (a6 & 0x0f) | 0x40 && y[6] == (b6 & 0x0f) | 0x40);
    assert(x[8] == (a8 & 0x3f) | 0x80 && y[8] == (b8 & 0x3f) | 0x80);
    assert((a6 & 0x0f) | 0x40 == (b6 & 0x0f) | 0x40 ==> a6 % 16 == b6 % 16) by (bit_vector);
    assert((a8 & 0x3f) | 0x80 == (b8 & 0x3f) | 0x80 ==> a8 % 64 == b8 % 64) by (bit_vector);
}

/// The number that a hexadecimal digit stands for.
pub open spec fn digit_value(c: char) -> int {
    if '0' <= c <= '9' {
        c as int - '0' as int
    } else {
        c as int - 'a' as int + 10
    }
}

/// Every byte of a UUID can be read from two digits of its text, in its order:
/// past the dash behind each of the fourth, the sixth, the eighth and the tenth
/// byte. The bytes are the random ones, but for the version in the high half of
/// the seventh and the variant in the two high bits of the ninth.
pub proof fn law_uuid_shows_its_bytes(random: Seq<u8>, i: int)
    requires
        random.len() == 16,
        0 <= i < 16,
    ensures
        ({
            let dashes: int = if i < 4 {
                0
            } else if i < 6 {
                1
            } else if i < 8 {
                2
            } else if i < 10 {
                3
            } else {
                4
            };
            let at = 2 * i + dashes;
            let text = uuid_text(random);
            let shown = 16 * digit_value(text[at]) + digit_value(text[at + 1]);
            if i == 6 {
                shown == 0x40 + random[6] % 16
            } else if i == 8 {
                shown == 0x80 + random[8] % 64
            } else {
                shown == random[i]
            }
        }),
{
    let bytes = uuid_bytes(random);
    let digits = hex_text(bytes);
    let text = uuid_text(random);
    let dashes: int = if i < 4 {
        0
    } else if i < 6 {
        1
    } else if i < 8 {
        2
    } else if i < 10 {
        3
    } else {
        4
    };
    let at = 2 * i + dashes;
    assert(text[at] == digits[2 * i]);
    assert(text[at + 1] == digits[2 * i + 1]);
    assert((2 * i) / 2 == i && (2 * i + 1) / 2 == i);
    assert(digits[2 * i] == hex_digit(bytes[i] as int / 16));
    assert(digits[2 * i + 1] == hex_digit(bytes[i] as int % 16));
    let r6 = random[6];
    let r8 = random[8];
    assert((r6 & 0x0f) | 0x40 == 0x40 + r6 % 16) by (bit_vector);
    assert((r8 & 0x3f) | 0x80 == 0x80 + r8 % 64) by (bit_vector);
}

} // verus!
