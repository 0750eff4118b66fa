//! Ordering of frame files by the number at the end of their name.
//!
//! File names are read as their UTF-8 bytes: that is how they are compared,
//! and digits, dots and the `frame_` prefix are single bytes in it.

use vstd::prelude::*;
use vstd::string::*;
use vstd::utf8::encode_utf8;

verus! {

/// Whether a byte is one of the ASCII digits.
pub open spec fn is_digit(b: u8) -> bool {
    48 <= b <= 57
}

/// Length of the run of digits that ends `s`.
pub open spec fn digit_suffix_len(s: Seq<u8>) -> nat
    decreases s.len(),
{
    if s.len() > 0 && is_digit(s.last()) {
        1 + digit_suffix_len(s.drop_last())
    } else {
        0
    }
}

/// The number that a string of digits writes in decimal.
pub open spec fn decimal_value(digits: Seq<u8>) -> nat
    decreases digits.len(),
{
    if digits.len() == 0 {
        0
    } else {
        10 * decimal_value(digits.drop_last()) + (digits.last() - 48) as nat
    }
}

/// The digits that end `s`.
pub open spec fn digit_suffix(s: Seq<u8>) -> Seq<u8> {
    s.subrange(s.len() - digit_suffix_len(s), s.len() as int)
}

/// The index of a file with this stem: the number its trailing digits
/// write, or `fallback` when it ends in no digit or the number does not fit
/// 32 bits.
pub open spec fn index_of_stem(stem: Seq<u8>, fallback: u32) -> u32 {
    if digit_suffix_len(stem) == 0 || decimal_value(digit_suffix(stem)) > u32::MAX {
        fallback
    } else {
        decimal_value(digit_suffix(stem)) as u32
    }
}

/// The digit run that ends `s` is a suffix of `s`.
pub proof fn lemma_digit_suffix_len_bound(s: Seq<u8>)
    ensures
        digit_suffix_len(s) <= s.len(),
    decreases s.len(),
{
    if s.len() > 0 && is_digit(s.last()) {
        lemma_digit_suffix_len_bound(s.drop_last());
    }
}

/// Reading one more byte: a digit lengthens the run and appends to the
/// number, any other byte ends the run.
proof fn lemma_digit_suffix_step(s: Seq<u8>, b: u8)
    ensures
        is_digit(b) ==> digit_suffix_len(s.push(b)) == digit_suffix_len(s) + 1,
        is_digit(b) ==> decimal_value(digit_suffix(s.push(b))) == 10 * decimal_value(
            digit_suffix(s),
        ) + (b - 48),
        !is_digit(b) ==> digit_suffix_len(s.push(b)) == 0,
{
    let t = s.push(b);
    assert(t.drop_last() =~= s);
    assert(t.last() == b);
    lemma_digit_suffix_len_bound(s);
    if is_digit(b) {
        assert(digit_suffix(t).drop_last() =~= digit_suffix(s));
        assert(digit_suffix(t).last() == b);
    }
}

/// The index of the file at the first `end` bytes of `name`.
fn index_in(name: &[u8], end: usize, fallback: u32) -> (index: u32)
    requires
        end <= name@.len(),
    ensures
        index == index_of_stem(name@.take(end as int), fallback),
{
    let mut value: u64 = 0;
    let mut run: usize = 0;
    let mut fits: bool = true;
    let mut i: usize = 0;
    assert(name@.take(0) =~= Seq::<u8>::empty());
    while i < end
        invariant
            i <= end <= name@.len(),
            run == digit_suffix_len(name@.take(i as int)),
            fits ==> value == decimal_value(digit_suffix(name@.take(i as int))),
            fits ==> value <= u32::MAX,
            !fits ==> decimal_value(digit_suffix(name@.take(i as int))) > u32::MAX,
            run == 0 ==> fits && value == 0,
        decreases end - i,
    {
        let b: u8 = name[i];
        proof {
            lemma_digit_suffix_step(name@.take(i as int), b);
            assert(name@.take(i as int).push(b) =~= name@.take(i + 1));
            lemma_digit_suffix_len_bound(name@.take(i as int));
            if is_digit(b) {
                assert(digit_suffix(name@.take(i + 1)).drop_last() =~= digit_suffix(
                    name@.take(i as int),
                ));
            }
        }
        if b >= 48 && b <= 57 {
            run = run + 1;
            if fits {
                value = 10 * value + (b - 48) as u64;
                if value > u32::MAX as u64 {
                    fits = false;
                }
            }
        } else {
            run = 0;
            value = 0;
            fits = true;
            assert(digit_suffix(name@.take(i + 1)) =~= Seq::<u8>::empty());
        }
        i = i + 1;
    }
    if run == 0 || !fits {
        fallback
    } else {
        value as u32
    }
}

/// The ordering index of a frame file, from the stem of its name: the number
/// that the digits at the end of the stem write, leading zeros and all. A
/// stem that ends in no digit, or in a number beyond 32 bits, gets
/// `fallback`.
pub fn extract_index(stem: &str, fallback: u32) -> (index: u32)
    ensures
        index == index_of_stem(stem.spec_bytes(), fallback),
{
    let bytes: &[u8] = stem.as_bytes();
    assert(bytes@.take(bytes@.len() as int) =~= bytes@);
    index_in(bytes, bytes.len(), fallback)
}

/// The name of a directory entry, without its directory.
pub enum EntryName {
    /// A name that is text.
    Text(String),
    /// A name that is no text, as the bytes the file system gave. Such a
    /// name can have an extension, but it sorts as the empty name and has no
    /// number.
    Raw(Vec<u8>),
}

/// An entry of a directory, as far as ordering looks at it.
pub struct DirEntry {
    /// The name of the entry.
    pub name: EntryName,
    /// Whether the entry is a regular file.
    pub is_file: bool,
}

impl DirEntry {
    /// The bytes of the entry's name, in which its extension is looked for.
    pub open spec fn bytes(self) -> Seq<u8> {
        match self.name {
            EntryName::Text(name) => encode_utf8(name@),
            EntryName::Raw(bytes) => bytes@,
        }
    }

    /// The name by which the entry is ordered and in which its prefix and
    /// its number are looked for: the bytes of a name that is text, nothing
    /// of one that is not.
    pub open spec fn text(self) -> Seq<u8> {
        match self.name {
            EntryName::Text(name) => encode_utf8(name@),
            EntryName::Raw(_) => Seq::empty(),
        }
    }
}

/// The prefix `frame_`.
pub open spec fn frame_prefix() -> Seq<u8> {
    seq![102u8, 114u8, 97u8, 109u8, 101u8, 95u8]
}

/// Whether `name` starts with `prefix`.
pub open spec fn starts_with(name: Seq<u8>, prefix: Seq<u8>) -> bool {
    prefix.len() <= name.len() && name.take(prefix.len() as int) == prefix
}

/// Position of the last dot in `name`, or -1 if it has none.
pub open spec fn last_dot(name: Seq<u8>) -> int
    decreases name.len(),
{
    if name.len() == 0 {
        -1
    } else if name.last() == 46 {
        name.len() - 1
    } else {
        last_dot(name.drop_last())
    }
}

/// Whether `name` parts into a stem and an extension: it has a dot that is
/// not its first byte, and it is not the name `..`.
pub open spec fn has_extension(name: Seq<u8>) -> bool {
    last_dot(name) > 0 && name != seq![46u8, 46u8]
}

/// The name up to its last dot, or all of it where it has no extension.
pub open spec fn stem_of(name: Seq<u8>) -> Seq<u8> {
    if has_extension(name) {
        name.take(last_dot(name))
    } else {
        name
    }
}

/// What follows the last dot, where the name has an extension.
pub open spec fn extension_of(name: Seq<u8>) -> Option<Seq<u8>> {
    if has_extension(name) {
        Some(name.skip(last_dot(name) + 1))
    } else {
        None
    }
}

/// An ASCII letter in lower case; every other byte as it is.
pub open spec fn lower(b: u8) -> u8 {
    if 65 <= b <= 90 {
        (b + 32) as u8
    } else {
        b
    }
}

/// Equality of two byte strings up to the case of ASCII letters.
pub open spec fn same_ignoring_case(a: Seq<u8>, b: Seq<u8>) -> bool {
    a.len() == b.len() && forall|i: int| 0 <= i < a.len() ==> lower(#[trigger] a[i]) == lower(b[i])
}

/// Whether a directory entry is a frame file of the wanted kind: a regular
/// file whose extension is `extension` in any case and, if asked for, whose
/// name is text that starts with `frame_`.
pub open spec fn is_frame_file(entry: DirEntry, extension: Seq<u8>, require_frame_prefix: bool) -> bool {
    &&& entry.is_file
    &&& extension_of(entry.bytes()) matches Some(found) && same_ignoring_case(found, extension)
    &&& require_frame_prefix ==> starts_with(entry.text(), frame_prefix())
}

/// The ordering index of the entry at position `k`: taken from its stem,
/// with the position as the fallback.
pub open spec fn entry_index(entries: Seq<DirEntry>, k: int) -> u32 {
    index_of_stem(stem_of(entries[k].text()), (k % 0x1_0000_0000) as u32)
}

/// Lexicographic order on byte strings, from position `i` on, for strings
/// that agree before `i`.
pub open spec fn bytes_before_from(a: Seq<u8>, b: Seq<u8>, i: int) -> bool
    decreases a.len() - i,
{
    if i >= b.len() {
        false
    } else if i >= a.len() {
        true
    } else if a[i] != b[i] {
        a[i] < b[i]
    } else {
        bytes_before_from(a, b, i + 1)
    }
}

/// Strict lexicographic order on byte strings: at the first place where the
/// two differ `a` has the smaller byte, or `a` ends there and `b` goes on.
pub open spec fn bytes_before(a: Seq<u8>, b: Seq<u8>) -> bool {
    bytes_before_from(a, b, 0)
}

/// The order in which frame files play: by index, files of one index by
/// name, and entries of one index and name in the order they were listed.
pub open spec fn plays_before(entries: Seq<DirEntry>, i: int, j: int) -> bool {
    let a = entry_index(entries, i);
    let b = entry_index(entries, j);
    a < b || (a == b && (bytes_before(entries[i].text(), entries[j].text()) || (
    entries[i].text() == entries[j].text() && i < j)))
}

/// What [`collect_frame_paths`] returns: the positions of exactly the frame
/// files among the entries, each once, in playing order.
pub open spec fn is_playing_order(
    entries: Seq<DirEntry>,
    extension: Seq<u8>,
    require_frame_prefix: bool,
    order: Seq<usize>,
) -> bool {
    &&& forall|p: int|
        0 <= p < order.len() ==> 0 <= #[trigger] order[p] < entries.len() && is_frame_file(
            entries[order[p] as int],
            extension,
            require_frame_prefix,
        )
    &&& forall|k: int|
        0 <= k < entries.len() && is_frame_file(
            #[trigger] entries[k],
            extension,
            require_frame_prefix,
        ) ==> exists|p: int| 0 <= p < order.len() && order[p] == k
    &&& forall|p: int, q: int|
        0 <= p < q < order.len() ==> plays_before(
            entries,
            #[trigger] order[p] as int,
            #[trigger] order[q] as int,
        )
}

/// Two strings that agree before `i` and are in neither order from `i` on
/// are equal.
proof fn lemma_bytes_trichotomy_from(a: Seq<u8>, b: Seq<u8>, i: int)
    requires
        0 <= i <= a.len(),
        i <= b.len(),
        a.take(i) == b.take(i),
        !bytes_before_from(a, b, i),
        !bytes_before_from(b, a, i),
    ensures
        a == b,
    decreases a.len() - i,
{
    if i >= a.len() || i >= b.len() {
        assert(a.take(a.len() as int) =~= a);
        assert(b.take(b.len() as int) =~= b);
    } else {
        assert(a[i] == b[i]);
        assert(a.take(i + 1) =~= a.take(i).push(a[i]));
        assert(b.take(i + 1) =~= b.take(i).push(b[i]));
        lemma_bytes_trichotomy_from(a, b, i + 1);
    }
}

/// Of two different byte strings one comes before the other.
pub proof fn lemma_bytes_trichotomy(a: Seq<u8>, b: Seq<u8>)
    ensures
        bytes_before(a, b) || bytes_before(b, a) || a == b,
        !(bytes_before(a, b) && bytes_before(b, a)),
        !bytes_before(a, a),
{
    if !bytes_before(a, b) && !bytes_before(b, a) {
        assert(a.take(0) =~= b.take(0));
        lemma_bytes_trichotomy_from(a, b, 0);
    }
    lemma_bytes_asymmetric_from(a, b, 0);
    lemma_bytes_asymmetric_from(a, a, 0);
}

/// From no position on are two strings in both orders.
proof fn lemma_bytes_asymmetric_from(a: Seq<u8>, b: Seq<u8>, i: int)
    requires
        0 <= i,
    ensures
        !(bytes_before_from(a, b, i) && bytes_before_from(b, a, i)),
    decreases a.len() - i,
{
    if i < a.len() && i < b.len() && a[i] == b[i] {
        lemma_bytes_asymmetric_from(a, b, i + 1);
    }
}

/// The lexicographic order is transitive from every position on.
proof fn lemma_bytes_transitive_from(a: Seq<u8>, b: Seq<u8>, c: Seq<u8>, i: int)
    requires
        0 <= i,
        bytes_before_from(a, b, i),
        bytes_before_from(b, c, i),
    ensures
        bytes_before_from(a, c, i),
    decreases c.len() - i,
{
    if i < a.len() && i < b.len() && i < c.len() && a[i] == b[i] && b[i] == c[i] {
        lemma_bytes_transitive_from(a, b, c, i + 1);
    }
}

/// The lexicographic order is transitive.
pub proof fn lemma_bytes_transitive(a: Seq<u8>, b: Seq<u8>, c: Seq<u8>)
    requires
        bytes_before(a, b),
        bytes_before(b, c),
    ensures
        bytes_before(a, c),
{
    lemma_bytes_transitive_from(a, b, c, 0);
}

/// The playing order is a strict total order on the positions of a
/// directory listing: no two positions share a place in it.
pub proof fn lemma_playing_order_total(entries: Seq<DirEntry>, i: int, j: int, k: int)
    ensures
        !plays_before(entries, i, i),
        i != j ==> plays_before(entries, i, j) || plays_before(entries, j, i),
        !(plays_before(entries, i, j) && plays_before(entries, j, i)),
        plays_before(entries, i, j) && plays_before(entries, j, k) ==> plays_before(
            entries,
            i,
            k,
        ),
{
    let a = entries[i].text();
    let b = entries[j].text();
    let c = entries[k].text();
    lemma_bytes_trichotomy(a, b);
    lemma_bytes_trichotomy(b, c);
    lemma_bytes_trichotomy(a, c);
    if bytes_before(a, b) && bytes_before(b, c) {
        lemma_bytes_transitive(a, b, c);
    }
}

/// Whether `a` comes before `b` in lexicographic order.
fn bytes_less(a: &[u8], b: &[u8]) -> (less: bool)
    ensures
        less == bytes_before(a@, b@),
{
    let mut i: usize = 0;
    while i < a.len() && i < b.len()
        invariant
            i <= a@.len(),
            i <= b@.len(),
            bytes_before(a@, b@) == bytes_before_from(a@, b@, i as int),
        decreases a@.len() - i,
    {
        if a[i] != b[i] {
            return a[i] < b[i];
        }
        i = i + 1;
    }
    i < b.len()
}

/// Whether two byte strings are the same.
fn bytes_equal(a: &[u8], b: &[u8]) -> (equal: bool)
    ensures
        equal == (a@ == b@),
{
    if a.len() != b.len() {
        return false;
    }
    let mut i: usize = 0;
    while i < a.len()
        invariant
            i <= a@.len(),
            a@.len() == b@.len(),
            a@.take(i as int) == b@.take(i as int),
        decreases a@.len() - i,
    {
        if a[i] != b[i] {
            return false;
        }
        assert(a@.take(i + 1) =~= a@.take(i as int).push(a@[i as int]));
        assert(b@.take(i + 1) =~= b@.take(i as int).push(b@[i as int]));
        i = i + 1;
    }
    assert(a@.take(a@.len() as int) =~= a@);
    assert(b@.take(b@.len() as int) =~= b@);
    true
}

/// Where `name` parts into stem and extension, if it does: the position of
/// its last dot.
fn extension_dot(name: &[u8]) -> (dot: Option<usize>)
    ensures
        match dot {
            Some(at) => has_extension(name@) && at == last_dot(name@) && at < name@.len(),
            None => !has_extension(name@),
        },
{
    let mut i: usize = name.len();
    assert(name@.take(i as int) =~= name@);
    while i > 0 && name[i - 1] != 46
        invariant
            i <= name@.len(),
            last_dot(name@) == last_dot(name@.take(i as int)),
        decreases i,
    {
        assert(name@.take(i as int).drop_last() =~= name@.take(i - 1));
        i = i - 1;
    }
    if i < 2 {
        // no dot at all, or none but a leading one
        return None;
    }
    if name.len() == 2 && name[0] == 46 {
        assert(name@ =~= seq![46u8, 46u8]);
        return None;
    }
    assert(name@ != seq![46u8, 46u8]) by {
        if name@.len() == 2 {
            assert(seq![46u8, 46u8][0] == 46u8);
        }
    }
    Some(i - 1)
}

/// The byte in lower case, if it is an ASCII letter.
fn to_lower(b: u8) -> (l: u8)
    ensures
        l == lower(b),
{
    if b >= 65 && b <= 90 {
        b + 32
    } else {
        b
    }
}

/// Whether what follows position `dot` of `name` is `extension`, in any
/// case.
fn extension_matches(name: &[u8], dot: usize, extension: &[u8]) -> (same: bool)
    requires
        dot < name@.len(),
    ensures
        same == same_ignoring_case(name@.skip(dot + 1), extension@),
{
    let len: usize = name.len();
    let start: usize = dot + 1;
    if len - start != extension.len() {
        return false;
    }
    let mut i: usize = 0;
    while i < extension.len()
        invariant
            start == dot + 1,
            start <= name@.len() <= usize::MAX,
            name@.len() - start == extension@.len(),
            i <= extension@.len(),
            forall|j: int|
                0 <= j < i ==> lower(#[trigger] name@.skip(start as int)[j]) == lower(
                    extension@[j],
                ),
        decreases extension@.len() - i,
    {
        if to_lower(name[start + i]) != to_lower(extension[i]) {
            assert(name@.skip(start as int)[i as int] == name@[start + i]);
            return false;
        }
        assert(name@.skip(start as int)[i as int] == name@[start + i]);
        i = i + 1;
    }
    true
}

/// Whether `name` starts with `frame_`.
fn has_frame_prefix(name: &[u8]) -> (found: bool)
    ensures
        found == starts_with(name@, frame_prefix()),
{
    if name.len() < 6 {
        return false;
    }
    let found: bool = name[0] == 102 && name[1] == 114 && name[2] == 97 && name[3] == 109
        && name[4] == 101 && name[5] == 95;
    proof {
        let head = name@.take(6);
        let prefix = frame_prefix();
        if found {
            assert(head =~= prefix);
        } else {
            assert(head[0] == name@[0] && head[1] == name@[1] && head[2] == name@[2] && head[3]
                == name@[3] && head[4] == name@[4] && head[5] == name@[5]);
            assert(prefix[0] == 102 && prefix[1] == 114 && prefix[2] == 97 && prefix[3] == 109
                && prefix[4] == 101 && prefix[5] == 95);
        }
    }
    found
}

/// The ordering index of the entry at `position` if it is a frame file of
/// the wanted kind, and `None` if it is not.
fn frame_file_index(
    entries: &Vec<DirEntry>,
    position: usize,
    extension: &[u8],
    require_frame_prefix: bool,
) -> (index: Option<u32>)
    requires
        position < entries@.len(),
    ensures
        index is Some <==> is_frame_file(
            entries@[position as int],
            extension@,
            require_frame_prefix,
        ),
        index matches Some(i) ==> i == entry_index(entries@, position as int),
{
    let entry: &DirEntry = &entries[position];
    if !entry.is_file {
        return None;
    }
    let fallback: u32 = ((position as u64) % 0x1_0000_0000) as u32;
    match &entry.name {
        EntryName::Text(text) => {
            let name: &[u8] = text.as_str().as_bytes();
            let dot: usize = match extension_dot(name) {
                Some(at) => at,
                None => {
                    return None;
                },
            };
            if !extension_matches(name, dot, extension) {
                return None;
            }
            if require_frame_prefix && !has_frame_prefix(name) {
                return None;
            }
            Some(index_in(name, dot, fallback))
        },
        EntryName::Raw(bytes) => {
            let name: &[u8] = bytes.as_slice();
            let dot: usize = match extension_dot(name) {
                Some(at) => at,
                None => {
                    return None;
                },
            };
            if require_frame_prefix || !extension_matches(name, dot, extension) {
                proof {
                    assert(frame_prefix().len() == 6);
                }
                return None;
            }
            Some(fallback)
        },
    }
}

/// The name by which an entry is ordered.
fn text_of(entry: &DirEntry) -> (text: &[u8])
    ensures
        text@ == entry.text(),
{
    match &entry.name {
        EntryName::Text(name) => name.as_str().as_bytes(),
        EntryName::Raw(bytes) => {
            let none: &[u8] = vstd::slice::slice_subrange(bytes.as_slice(), 0, 0);
            assert(none@ =~= Seq::<u8>::empty());
            none
        },
    }
}

/// Whether the entry at `i` plays before the entry at `j`, given the index
/// of each.
fn plays_first(entries: &Vec<DirEntry>, i: usize, index_i: u32, j: usize, index_j: u32) -> (first:
    bool)
    requires
        i < entries@.len(),
        j < entries@.len(),
        index_i == entry_index(entries@, i as int),
        index_j == entry_index(entries@, j as int),
    ensures
        first == plays_before(entries@, i as int, j as int),
{
    if index_i != index_j {
        return index_i < index_j;
    }
    let a: &[u8] = text_of(&entries[i]);
    let b: &[u8] = text_of(&entries[j]);
    if bytes_less(a, b) {
        return true;
    }
    bytes_equal(a, b) && i < j
}

/// Picks the frame files of one kind out of a directory listing and puts
/// them in playing order.
///
/// `entries` is the listing in the order the directory gave it. A frame file
/// is a regular file with the extension `extension`, in any case, whose name
/// is text that starts with `frame_` if `require_frame_prefix` is set. The result holds
/// the positions of the frame files in `entries`, ordered by the number at
/// the end of each stem, then by name. A file without such a number is
/// ordered by its position in the listing.
pub fn collect_frame_paths(
    entries: &Vec<DirEntry>,
    extension: &str,
    require_frame_prefix: bool,
) -> (order: Vec<usize>)
    ensures
        is_playing_order(entries@, extension.spec_bytes(), require_frame_prefix, order@),
{
    let wanted: &[u8] = extension.as_bytes();
    let mut order: Vec<usize> = Vec::new();
    let mut indices: Vec<u32> = Vec::new();
    let mut k: usize = 0;
    while k < entries.len()
        invariant
            k <= entries@.len(),
            wanted@ == extension.spec_bytes(),
            indices@.len() == order@.len(),
            forall|p: int|
                0 <= p < order@.len() ==> 0 <= #[trigger] order@[p] < k && is_frame_file(
                    entries@[order@[p] as int],
                    wanted@,
                    require_frame_prefix,
                ) && indices@[p] == entry_index(entries@, order@[p] as int),
            forall|j: int|
                0 <= j < k && is_frame_file(#[trigger] entries@[j], wanted@, require_frame_prefix)
                    ==> exists|p: int| 0 <= p < order@.len() && order@[p] == j,
            forall|p: int, q: int|
                0 <= p < q < order@.len() ==> plays_before(
                    entries@,
                    #[trigger] order@[p] as int,
                    #[trigger] order@[q] as int,
                ),
        decreases entries@.len() - k,
    {
        match frame_file_index(entries, k, wanted, require_frame_prefix) {
            Some(index) => {
                let mut at: usize = order.len();
                while at > 0 && plays_first(entries, k, index, order[at - 1], indices[at - 1])
                    invariant
                        at <= order@.len(),
                        k < entries@.len(),
                        indices@.len() == order@.len(),
                        index == entry_index(entries@, k as int),
                        forall|p: int|
                            0 <= p < order@.len() ==> 0 <= #[trigger] order@[p] < k
                                && indices@[p] == entry_index(entries@, order@[p] as int),
                        forall|q: int|
                            at <= q < order@.len() ==> plays_before(
                                entries@,
                                k as int,
                                #[trigger] order@[q] as int,
                            ),
                    decreases at,
                {
                    at = at - 1;
                }
                let ghost before = order@;
                proof {
                    assert forall|p: int| 0 <= p < at implies plays_before(
                        entries@,
                        #[trigger] before[p] as int,
                        k as int,
                    ) by {
                        let last = before[at - 1] as int;
                        lemma_playing_order_total(entries@, last, k as int, k as int);
                        lemma_playing_order_total(entries@, before[p] as int, last, k as int);
                    }
                }
                order.insert(at, k);
                indices.insert(at, index);
                proof {
                    assert forall|j: int|
                        0 <= j < k + 1 && is_frame_file(
                            #[trigger] entries@[j],
                            wanted@,
                            require_frame_prefix,
                        ) implies exists|p: int| 0 <= p < order@.len() && order@[p] == j by {
                        if j == k {
                            assert(order@[at as int] == k);
                        } else {
                            let p = choose|p: int| 0 <= p < before.len() && before[p] == j;
                            if p < at {
                                assert(order@[p] == j);
                            } else {
                                assert(order@[p + 1] == j);
                            }
                        }
                    }
                    assert forall|p: int, q: int| 0 <= p < q < order@.len() implies plays_before(
                        entries@,
                        #[trigger] order@[p] as int,
                        #[trigger] order@[q] as int,
                    ) by {
                        let was_p = if p < at { p } else { p - 1 };
                        let was_q = if q < at { q } else { q - 1 };
                        if p != at && q != at {
                            assert(order@[p] == before[was_p] && order@[q] == before[was_q]);
                            assert(plays_before(entries@, before[was_p] as int, before[was_q] as int));
                        } else if p == at {
                            assert(order@[q] == before[was_q]);
                            assert(plays_before(entries@, k as int, before[was_q] as int));
                        } else {
                            assert(order@[p] == before[was_p]);
                            assert(plays_before(entries@, before[was_p] as int, k as int));
                        }
                    }
                }
            },
            None => {},
        }
        k = k + 1;
    }
    order
}

/// The playing order of a listing is unique: two lists that both hold
/// exactly its frame files in playing order are the same list.
pub proof fn lemma_playing_order_unique(
    entries: Seq<DirEntry>,
    extension: Seq<u8>,
    require_frame_prefix: bool,
    first: Seq<usize>,
    second: Seq<usize>,
)
    requires
        is_playing_order(entries, extension, require_frame_prefix, first),
        is_playing_order(entries, extension, require_frame_prefix, second),
    ensures
        first == second,
{
    lemma_order_prefix(entries, extension, require_frame_prefix, first, second, first.len() as int);
    lemma_order_prefix(entries, extension, require_frame_prefix, second, first, second.len() as int);
    assert(first =~= second);
}

/// Two playing orders of one listing agree on their first `n` places.
proof fn lemma_order_prefix(
    entries: Seq<DirEntry>,
    extension: Seq<u8>,
    require_frame_prefix: bool,
    first: Seq<usize>,
    second: Seq<usize>,
    n: int,
)
    requires
        is_playing_order(entries, extension, require_frame_prefix, first),
        is_playing_order(entries, extension, require_frame_prefix, second),
        0 <= n <= first.len(),
    ensures
        n <= second.len(),
        forall|p: int| 0 <= p < n ==> first[p] == second[p],
    decreases n,
{
    if n > 0 {
        lemma_order_prefix(entries, extension, require_frame_prefix, first, second, n - 1);
        let at = n - 1;
        let k = first[at] as int;
        // the file at this place of `first` stands somewhere in `second`
        assert(is_frame_file(entries[k], extension, require_frame_prefix));
        let q = choose|q: int| 0 <= q < second.len() && second[q] == k;
        if q < at {
            // it would stand twice in `first`
            assert(first[q] == second[q]);
            assert(plays_before(entries, first[q] as int, first[at] as int));
            lemma_playing_order_total(entries, k, k, k);
        } else if q > at {
            // then what stands at this place of `second` comes before it,
            // and has no place left in `first`
            let j = second[at] as int;
            assert(plays_before(entries, second[at] as int, second[q] as int));
            assert(is_frame_file(entries[j], extension, require_frame_prefix));
            let p = choose|p: int| 0 <= p < first.len() && first[p] == j;
            lemma_playing_order_total(entries, j, k, j);
            if p < at {
                assert(first[p] == second[p]);
                assert(plays_before(entries, second[p] as int, second[at] as int));
            } else if p > at {
                assert(plays_before(entries, first[at] as int, first[p] as int));
            }
        }
    }
}

} // verus!
