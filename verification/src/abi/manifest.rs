//! The boot bundle's manifest: a small line-oriented text format that names
//! the images to start, their arguments and, from version 2 on, where each
//! image's ELF lies in the bundle's ELF area.
//!
//! ```text
//! version=1            version=2
//! name=hello           image=spin
//! arg=first            arg=slow
//! arg=second           elf=0,4096
//!                      image=cat
//!                      elf=4096,2048
//! ```

use vstd::prelude::*;
use vstd::utf8::valid_utf8;
use vstd::string::StringSliceAdditionalSpecFns;
use crate::bytes::{
    first_index, lemma_first_index, lemma_first_index_at, find_byte, has_prefix, range_has_prefix,
};
use crate::text::{str_from_utf8, substring, ascii_edge};

verus! {

pub const MANIFEST_MAX_LEN: usize = 4096;

pub const NAME_MAX_LEN: usize = 128;

pub const ARG_MAX_COUNT: usize = 16;

pub const ARG_MAX_LEN: usize = 256;

/// The most images one bundle may start; the kernel's process table holds as many.
pub const IMAGE_MAX_COUNT: usize = 4;

pub const NEWLINE: u8 = 0x0a;

pub const CARRIAGE_RETURN: u8 = 0x0d;

pub const COMMA: u8 = 0x2c;

#[derive(Debug, Clone, Copy, PartialEq, Eq, Structural)]
pub enum ManifestError {
    TooLong,
    InvalidUtf8,
    MissingTrailingLf,
    MissingVersion,
    DuplicateVersion,
    MissingName,
    InvalidOrder,
    EmptyName,
    NameTooLong,
    InvalidName,
    UnknownKey,
    TooManyArgs,
    ArgumentTooLong,
    ArgumentContainsNul,
    ArgumentContainsCarriageReturn,
    MissingImage,
    TooManyImages,
    MissingElf,
    MalformedElf,
    OverlappingElfRange,
}

// ---------------------------------------------------------------------------
// The format, stated over bytes.

pub open spec fn key_version() -> Seq<u8> {
    seq![('v' as u8), ('e' as u8), ('r' as u8), ('s' as u8), ('i' as u8), ('o' as u8), ('n' as u8), ('=' as u8)]
}

pub open spec fn key_name() -> Seq<u8> {
    seq![('n' as u8), ('a' as u8), ('m' as u8), ('e' as u8), ('=' as u8)]
}

pub open spec fn key_arg() -> Seq<u8> {
    seq![('a' as u8), ('r' as u8), ('g' as u8), ('=' as u8)]
}

pub open spec fn key_image() -> Seq<u8> {
    seq![('i' as u8), ('m' as u8), ('a' as u8), ('g' as u8), ('e' as u8), ('=' as u8)]
}

pub open spec fn key_elf() -> Seq<u8> {
    seq![('e' as u8), ('l' as u8), ('f' as u8), ('=' as u8)]
}

/// What follows the key `key` on `line`.
pub open spec fn value_after(line: Seq<u8>, key: Seq<u8>) -> Seq<u8> {
    line.subrange(key.len() as int, line.len() as int)
}

/// The lines of `s` from position `p` on: the runs between newlines, the last
/// one reaching the end of `s` (so an empty `s` holds one empty line).
pub open spec fn lines_from(s: Seq<u8>, p: int) -> Seq<Seq<u8>>
    decreases s.len() - p,
{
    if p < 0 || p > s.len() {
        Seq::empty()
    } else {
        let e = first_index(s, p, NEWLINE);
        if e >= s.len() {
            seq![s.subrange(p, s.len() as int)]
        } else {
            proof {
                lemma_first_index(s, p, NEWLINE);
            }
            seq![s.subrange(p, e)].add(lines_from(s, e + 1))
        }
    }
}

/// A name may hold ASCII letters, digits, `.`, `_` and `-`.
pub open spec fn name_byte(b: u8) -> bool {
    ||| (('a' as u8) <= b <= ('z' as u8))
    ||| (('A' as u8) <= b <= ('Z' as u8))
    ||| (('0' as u8) <= b <= ('9' as u8))
    ||| b == ('.' as u8)
    ||| b == ('_' as u8)
    ||| b == ('-' as u8)
}

/// Why `name` is not an acceptable image name, if it is not.
pub open spec fn name_error(name: Seq<u8>) -> Option<ManifestError> {
    if name.len() == 0 {
        Some(ManifestError::EmptyName)
    } else if name.len() > NAME_MAX_LEN {
        Some(ManifestError::NameTooLong)
    } else if exists|i: int| 0 <= i < name.len() && !name_byte(#[trigger] name[i]) {
        Some(ManifestError::InvalidName)
    } else {
        None
    }
}

/// Why `arg` may not follow `count` arguments of the same image, if it may not.
pub open spec fn argument_error(arg: Seq<u8>, count: nat) -> Option<ManifestError> {
    if count >= ARG_MAX_COUNT {
        Some(ManifestError::TooManyArgs)
    } else if arg.len() > ARG_MAX_LEN {
        Some(ManifestError::ArgumentTooLong)
    } else if arg.contains(0u8) {
        Some(ManifestError::ArgumentContainsNul)
    } else if arg.contains(CARRIAGE_RETURN) {
        Some(ManifestError::ArgumentContainsCarriageReturn)
    } else {
        None
    }
}

pub open spec fn is_decimal(cell: Seq<u8>) -> bool {
    cell.len() > 0 && forall|i: int| 0 <= i < cell.len() ==> ('0' as u8) <= #[trigger] cell[i] <= ('9' as u8)
}

/// The value of the decimal digits `cell`.
pub open spec fn decimal_value(cell: Seq<u8>) -> nat
    decreases cell.len(),
{
    if cell.len() == 0 {
        0
    } else {
        decimal_value(cell.drop_last()) * 10 + (cell.last() - ('0' as u8)) as nat
    }
}

/// The offset and length that an `elf=` value `<offset>,<len>` gives: both
/// decimal, the length not zero and the end within `u64`.
pub open spec fn elf_range(value: Seq<u8>) -> Option<(u64, u64)> {
    let c = first_index(value, 0, COMMA);
    let offset = value.subrange(0, c);
    let len = value.subrange(c + 1, value.len() as int);
    if c >= value.len() || !is_decimal(offset) || !is_decimal(len) {
        None
    } else if decimal_value(len) == 0 || decimal_value(offset) + decimal_value(len) > u64::MAX {
        None
    } else {
        Some((decimal_value(offset) as u64, decimal_value(len) as u64))
    }
}

pub open spec fn ranges_overlap(a: (u64, u64), b: (u64, u64)) -> bool {
    b.0 < a.0 + a.1 && a.0 < b.0 + b.1
}

/// One image as the manifest declares it: its name, its arguments and the
/// range of its ELF within the ELF area (`None`: the whole area).
pub struct ImageModel {
    pub name: Seq<u8>,
    pub args: Seq<Seq<u8>>,
    pub elf: Option<(u64, u64)>,
}

pub struct ManifestModel {
    pub version: u8,
    pub images: Seq<ImageModel>,
}

/// The arguments of a version 1 manifest, given the lines after the name.
pub open spec fn v1_args(args: Seq<Seq<u8>>, lines: Seq<Seq<u8>>) -> Result<
    Seq<Seq<u8>>,
    ManifestError,
>
    decreases lines.len(),
{
    if lines.len() == 0 {
        Ok(args)
    } else {
        let line = lines[0];
        if has_prefix(line, key_version()) {
            Err(ManifestError::DuplicateVersion)
        } else if has_prefix(line, key_name()) || has_prefix(line, key_image()) {
            Err(ManifestError::InvalidOrder)
        } else if !has_prefix(line, key_arg()) {
            Err(ManifestError::UnknownKey)
        } else {
            let arg = value_after(line, key_arg());
            match argument_error(arg, args.len()) {
                Some(e) => Err(e),
                None => v1_args(args.push(arg), lines.drop_first()),
            }
        }
    }
}

/// The single image of a version 1 manifest, given the lines after the version.
pub open spec fn parse_v1(lines: Seq<Seq<u8>>) -> Result<ImageModel, ManifestError> {
    if lines.len() == 0 {
        Err(ManifestError::MissingName)
    } else if !has_prefix(lines[0], key_name()) {
        if has_prefix(lines[0], key_version()) {
            Err(ManifestError::DuplicateVersion)
        } else {
            Err(ManifestError::InvalidOrder)
        }
    } else {
        let name = value_after(lines[0], key_name());
        match name_error(name) {
            Some(e) => Err(e),
            None => match v1_args(Seq::empty(), lines.drop_first()) {
                Ok(args) => Ok(ImageModel { name, args, elf: None }),
                Err(e) => Err(e),
            },
        }
    }
}

/// Whether the last image declared so far has its `elf=` line.
pub open spec fn last_has_elf(images: Seq<ImageModel>) -> bool {
    images.len() > 0 && images.last().elf is Some
}

/// Whether `range` overlaps the range of one of the first `n` images.
pub open spec fn overlaps_earlier(images: Seq<ImageModel>, n: int, range: (u64, u64)) -> bool {
    exists|i: int|
        0 <= i < n && (#[trigger] images[i]).elf is Some && ranges_overlap(
            images[i].elf->0,
            range,
        )
}

/// One line of a version 2 manifest, read after the images declared so far.
pub open spec fn v2_step(images: Seq<ImageModel>, line: Seq<u8>) -> Result<
    Seq<ImageModel>,
    ManifestError,
> {
    let n = images.len();
    if has_prefix(line, key_image()) {
        let name = value_after(line, key_image());
        if n > 0 && !last_has_elf(images) {
            Err(ManifestError::MissingElf)
        } else if name_error(name) is Some {
            Err(name_error(name)->0)
        } else if n == IMAGE_MAX_COUNT {
            Err(ManifestError::TooManyImages)
        } else {
            Ok(images.push(ImageModel { name, args: Seq::empty(), elf: None }))
        }
    } else if has_prefix(line, key_arg()) {
        let arg = value_after(line, key_arg());
        if n == 0 || last_has_elf(images) {
            Err(ManifestError::InvalidOrder)
        } else if argument_error(arg, images.last().args.len()) is Some {
            Err(argument_error(arg, images.last().args.len())->0)
        } else {
            Ok(
                images.update(
                    n - 1,
                    ImageModel { args: images.last().args.push(arg), ..images.last() },
                ),
            )
        }
    } else if has_prefix(line, key_elf()) {
        let value = value_after(line, key_elf());
        if n == 0 || last_has_elf(images) {
            Err(ManifestError::InvalidOrder)
        } else if elf_range(value) is None {
            Err(ManifestError::MalformedElf)
        } else if overlaps_earlier(images, n - 1, elf_range(value)->0) {
            Err(ManifestError::OverlappingElfRange)
        } else {
            Ok(images.update(n - 1, ImageModel { elf: elf_range(value), ..images.last() }))
        }
    } else if has_prefix(line, key_version()) {
        Err(ManifestError::DuplicateVersion)
    } else {
        Err(ManifestError::UnknownKey)
    }
}

/// The images declared by `lines`, read after `images`.
pub open spec fn v2_run(images: Seq<ImageModel>, lines: Seq<Seq<u8>>) -> Result<
    Seq<ImageModel>,
    ManifestError,
>
    decreases lines.len(),
{
    if lines.len() == 0 {
        Ok(images)
    } else {
        match v2_step(images, lines[0]) {
            Ok(next) => v2_run(next, lines.drop_first()),
            Err(e) => Err(e),
        }
    }
}

/// The images of a version 2 manifest, given the lines after the version.
pub open spec fn parse_v2(lines: Seq<Seq<u8>>) -> Result<Seq<ImageModel>, ManifestError> {
    match v2_run(Seq::empty(), lines) {
        Err(e) => Err(e),
        Ok(images) => if images.len() == 0 {
            Err(ManifestError::MissingImage)
        } else if !last_has_elf(images) {
            Err(ManifestError::MissingElf)
        } else {
            Ok(images)
        },
    }
}

/// What reading `first` as the version line gives.
pub open spec fn version_of(first: Seq<u8>) -> Result<u8, ManifestError> {
    if first == key_version().push(('1' as u8)) {
        Ok(1)
    } else if first == key_version().push(('2' as u8)) {
        Ok(2)
    } else if has_prefix(first, key_version()) {
        Err(ManifestError::MissingVersion)
    } else if has_prefix(first, key_name()) || has_prefix(first, key_arg()) || has_prefix(
        first,
        key_image(),
    ) {
        Err(ManifestError::InvalidOrder)
    } else {
        Err(ManifestError::MissingVersion)
    }
}

/// What the manifest `bytes` declares, or the first rule it breaks.
pub open spec fn manifest_of(bytes: Seq<u8>) -> Result<ManifestModel, ManifestError> {
    if bytes.len() > MANIFEST_MAX_LEN {
        Err(ManifestError::TooLong)
    } else if !valid_utf8(bytes) {
        Err(ManifestError::InvalidUtf8)
    } else if bytes.len() == 0 || bytes.last() != NEWLINE {
        Err(ManifestError::MissingTrailingLf)
    } else {
        let src = bytes.drop_last();
        let lines = lines_from(src, 0);
        if src.len() > 0 && src.last() == NEWLINE {
            Err(ManifestError::UnknownKey)
        } else {
            match version_of(lines[0]) {
                Err(e) => Err(e),
                Ok(version) => if version == 1 {
                    match parse_v1(lines.drop_first()) {
                        Ok(image) => Ok(ManifestModel { version, images: seq![image] }),
                        Err(e) => Err(e),
                    }
                } else {
                    match parse_v2(lines.drop_first()) {
                        Ok(images) => Ok(ManifestModel { version, images }),
                        Err(e) => Err(e),
                    }
                },
            }
        }
    }
}

// ---------------------------------------------------------------------------
// Reading the lines.

pub proof fn lemma_lines_step(s: Seq<u8>, p: int)
    requires
        0 <= p <= s.len(),
    ensures
        lines_from(s, p).len() > 0,
        lines_from(s, p)[0] == s.subrange(p, first_index(s, p, NEWLINE)),
        lines_from(s, p).drop_first() == lines_from(s, first_index(s, p, NEWLINE) + 1),
        p <= first_index(s, p, NEWLINE) <= s.len(),
{
    lemma_first_index(s, p, NEWLINE);
    let e = first_index(s, p, NEWLINE);
    if e >= s.len() {
        assert(lines_from(s, e + 1) =~= Seq::<Seq<u8>>::empty());
        assert(lines_from(s, p).drop_first() =~= lines_from(s, e + 1));
    } else {
        assert(lines_from(s, p).drop_first() =~= lines_from(s, e + 1));
    }
}

/// How the manifest text lies over its bytes: `src` is all but the final
/// newline of `text`.
pub open spec fn text_over(text: &str, src: Seq<u8>) -> bool {
    &&& src.len() < MANIFEST_MAX_LEN
    &&& text.spec_bytes().len() == src.len() + 1
    &&& text.spec_bytes().subrange(0, src.len() as int) == src
    &&& text.spec_bytes()[src.len() as int] == NEWLINE
}

/// The value of the line `src[p..e]` after its `klen`-byte key, as text.
fn line_value<'a>(text: &'a str, src: &[u8], p: usize, e: usize, klen: usize) -> (r: &'a str)
    requires
        text_over(text, src@),
        0 < klen,
        p + klen <= e <= src@.len(),
        e == first_index(src@, p as int, NEWLINE),
        src@[p + klen - 1] < 0x80,
    ensures
        r.spec_bytes() == src@.subrange(p + klen, e as int),
{
    let ghost t = text.spec_bytes();
    proof {
        lemma_first_index(src@, p as int, NEWLINE);
        assert(t[p + klen - 1] == src@[p + klen - 1]);
        if e < src@.len() {
            assert(t[e as int] == src@[e as int]);
        }
        assert(ascii_edge(t, (p + klen) as int));
        assert(ascii_edge(t, e as int));
    }
    let r = substring(text, p + klen, e);
    proof {
        assert(r.spec_bytes() =~= src@.subrange(p + klen, e as int));
    }
    r
}

fn key_version_bytes() -> (r: [u8; 8])
    ensures
        r@ == key_version(),
{
    let r = ['v' as u8, 'e' as u8, 'r' as u8, 's' as u8, 'i' as u8, 'o' as u8, 'n' as u8, '=' as u8];
    assert(r@ =~= key_version());
    r
}

fn key_name_bytes() -> (r: [u8; 5])
    ensures
        r@ == key_name(),
{
    let r = ['n' as u8, 'a' as u8, 'm' as u8, 'e' as u8, '=' as u8];
    assert(r@ =~= key_name());
    r
}

fn key_arg_bytes() -> (r: [u8; 4])
    ensures
        r@ == key_arg(),
{
    let r = ['a' as u8, 'r' as u8, 'g' as u8, '=' as u8];
    assert(r@ =~= key_arg());
    r
}

fn key_image_bytes() -> (r: [u8; 6])
    ensures
        r@ == key_image(),
{
    let r = ['i' as u8, 'm' as u8, 'a' as u8, 'g' as u8, 'e' as u8, '=' as u8];
    assert(r@ =~= key_image());
    r
}

fn key_elf_bytes() -> (r: [u8; 4])
    ensures
        r@ == key_elf(),
{
    let r = ['e' as u8, 'l' as u8, 'f' as u8, '=' as u8];
    assert(r@ =~= key_elf());
    r
}

/// The keys a line can start with.
enum LineKey {
    Version,
    Name,
    Arg,
    Image,
    Elf,
    Other,
}

/// Which key starts the line `line`; no two keys start alike.
spec fn key_of(line: Seq<u8>) -> LineKey {
    if has_prefix(line, key_version()) {
        LineKey::Version
    } else if has_prefix(line, key_name()) {
        LineKey::Name
    } else if has_prefix(line, key_arg()) {
        LineKey::Arg
    } else if has_prefix(line, key_image()) {
        LineKey::Image
    } else if has_prefix(line, key_elf()) {
        LineKey::Elf
    } else {
        LineKey::Other
    }
}

proof fn lemma_keys_exclusive(line: Seq<u8>)
    ensures
        key_of(line) != LineKey::Version ==> !has_prefix(line, key_version()),
        key_of(line) != LineKey::Name ==> !has_prefix(line, key_name()),
        key_of(line) != LineKey::Arg ==> !has_prefix(line, key_arg()),
        key_of(line) != LineKey::Image ==> !has_prefix(line, key_image()),
        key_of(line) != LineKey::Elf ==> !has_prefix(line, key_elf()),
        key_of(line) == LineKey::Version ==> has_prefix(line, key_version()),
        key_of(line) == LineKey::Name ==> has_prefix(line, key_name()),
        key_of(line) == LineKey::Arg ==> has_prefix(line, key_arg()),
        key_of(line) == LineKey::Image ==> has_prefix(line, key_image()),
        key_of(line) == LineKey::Elf ==> has_prefix(line, key_elf()),
{
    let heads = seq![line.subrange(0, 1)];
    if line.len() > 0 {
        assert(key_version()[0] != key_name()[0]);
        assert(has_prefix(line, key_version()) ==> line[0] == key_version()[0]);
        assert(has_prefix(line, key_name()) ==> line[0] == key_name()[0]);
        assert(has_prefix(line, key_arg()) ==> line[0] == key_arg()[0]);
        assert(has_prefix(line, key_image()) ==> line[0] == key_image()[0]);
        assert(has_prefix(line, key_elf()) ==> line[0] == key_elf()[0]);
    }
}

fn line_key(src: &[u8], p: usize, e: usize) -> (r: LineKey)
    requires
        p <= e <= src@.len(),
    ensures
        r == key_of(src@.subrange(p as int, e as int)),
{
    if range_has_prefix(src, p, e, key_version_bytes().as_slice()) {
        LineKey::Version
    } else if range_has_prefix(src, p, e, key_name_bytes().as_slice()) {
        LineKey::Name
    } else if range_has_prefix(src, p, e, key_arg_bytes().as_slice()) {
        LineKey::Arg
    } else if range_has_prefix(src, p, e, key_image_bytes().as_slice()) {
        LineKey::Image
    } else if range_has_prefix(src, p, e, key_elf_bytes().as_slice()) {
        LineKey::Elf
    } else {
        LineKey::Other
    }
}

// ---------------------------------------------------------------------------
// Checking values.

fn is_name_byte(b: u8) -> (r: bool)
    ensures
        r == name_byte(b),
{
    ('a' as u8 <= b && b <= 'z' as u8) || ('A' as u8 <= b && b <= 'Z' as u8) || ('0' as u8 <= b
        && b <= '9' as u8) || b == '.' as u8 || b == '_' as u8 || b == '-' as u8
}

fn check_name(src: &[u8], start: usize, end: usize) -> (r: Option<ManifestError>)
    requires
        start <= end <= src@.len(),
    ensures
        r == name_error(src@.subrange(start as int, end as int)),
{
    let ghost name = src@.subrange(start as int, end as int);
    if end - start == 0 {
        return Some(ManifestError::EmptyName);
    }
    if end - start > NAME_MAX_LEN {
        return Some(ManifestError::NameTooLong);
    }
    let mut i = start;
    while i < end
        invariant
            start <= i <= end <= src@.len(),
            0 < end - start <= NAME_MAX_LEN,
            name == src@.subrange(start as int, end as int),
            forall|k: int| 0 <= k < i - start ==> name_byte(#[trigger] name[k]),
        decreases end - i,
    {
        if !is_name_byte(src[i]) {
            let ghost w = i - start;
            assert(name[w] == src@[i as int]);
            assert(0 <= w < name.len() && !name_byte(name[w]));
            return Some(ManifestError::InvalidName);
        }
        i = i + 1;
    }
    None
}

/// `src[start..end]` holds `byte`.
fn holds_byte(src: &[u8], start: usize, end: usize, byte: u8) -> (r: bool)
    requires
        start <= end <= src@.len(),
    ensures
        r == src@.subrange(start as int, end as int).contains(byte),
{
    let ghost piece = src@.subrange(start as int, end as int);
    let mut i = start;
    while i < end
        invariant
            start <= i <= end <= src@.len(),
            piece == src@.subrange(start as int, end as int),
            forall|k: int| 0 <= k < i - start ==> #[trigger] piece[k] != byte,
        decreases end - i,
    {
        if src[i] == byte {
            assert(piece[i - start] == byte);
            return true;
        }
        i = i + 1;
    }
    false
}

fn check_argument(src: &[u8], start: usize, end: usize, count: usize) -> (r: Option<
    ManifestError,
>)
    requires
        start <= end <= src@.len(),
    ensures
        r == argument_error(src@.subrange(start as int, end as int), count as nat),
{
    if count >= ARG_MAX_COUNT {
        Some(ManifestError::TooManyArgs)
    } else if end - start > ARG_MAX_LEN {
        Some(ManifestError::ArgumentTooLong)
    } else if holds_byte(src, start, end, 0) {
        Some(ManifestError::ArgumentContainsNul)
    } else if holds_byte(src, start, end, CARRIAGE_RETURN) {
        Some(ManifestError::ArgumentContainsCarriageReturn)
    } else {
        None
    }
}

proof fn lemma_decimal_prefix(s: Seq<u8>, k: int)
    requires
        0 <= k <= s.len(),
        forall|i: int| 0 <= i < s.len() ==> ('0' as u8) <= #[trigger] s[i] <= ('9' as u8),
    ensures
        decimal_value(s.subrange(0, k)) <= decimal_value(s),
    decreases s.len() - k,
{
    if k == s.len() {
        assert(s.subrange(0, k) =~= s);
    } else {
        let t = s.drop_last();
        lemma_decimal_prefix(t, k);
        assert(t.subrange(0, k) =~= s.subrange(0, k));
    }
}

/// The value of the decimal digits `src[start..end]`, when they are decimal
/// digits and their value fits in `u64`.
fn parse_decimal(src: &[u8], start: usize, end: usize) -> (r: Option<u64>)
    requires
        start <= end <= src@.len(),
    ensures
        match r {
            Some(v) => is_decimal(src@.subrange(start as int, end as int)) && v == decimal_value(
                src@.subrange(start as int, end as int),
            ),
            None => !is_decimal(src@.subrange(start as int, end as int)) || decimal_value(
                src@.subrange(start as int, end as int),
            ) > u64::MAX,
        },
{
    let ghost cell = src@.subrange(start as int, end as int);
    if start == end {
        return None;
    }
    let mut i = start;
    while i < end
        invariant
            start <= i <= end <= src@.len(),
            cell == src@.subrange(start as int, end as int),
            forall|k: int| 0 <= k < i - start ==> ('0' as u8) <= #[trigger] cell[k] <= ('9' as u8),
        decreases end - i,
    {
        if src[i] < '0' as u8 || src[i] > '9' as u8 {
            assert(!(('0' as u8) <= cell[i - start] <= ('9' as u8)));
            return None;
        }
        i = i + 1;
    }
    let mut value: u64 = 0;
    let mut j = start;
    while j < end
        invariant
            start <= j <= end <= src@.len(),
            cell == src@.subrange(start as int, end as int),
            is_decimal(cell),
            value == decimal_value(cell.subrange(0, j - start)),
        decreases end - j,
    {
        let ghost k = j - start;
        assert(cell.subrange(0, k + 1).drop_last() =~= cell.subrange(0, k));
        assert(src@[j as int] == cell[k]);
        let next: u128 = (value as u128) * 10 + ((src[j] - '0' as u8) as u128);
        if next > u64::MAX as u128 {
            proof {
                lemma_decimal_prefix(cell, k + 1);
            }
            return None;
        }
        value = next as u64;
        j = j + 1;
    }
    assert(cell.subrange(0, end - start) =~= cell);
    Some(value)
}

fn parse_elf_range(src: &[u8], start: usize, end: usize) -> (r: Option<(u64, u64)>)
    requires
        start <= end <= src@.len(),
    ensures
        r == elf_range(src@.subrange(start as int, end as int)),
{
    let ghost value = src@.subrange(start as int, end as int);
    let mut c = start;
    while c < end && src[c] != COMMA
        invariant
            start <= c <= end <= src@.len(),
            value == src@.subrange(start as int, end as int),
            forall|k: int| 0 <= k < c - start ==> #[trigger] value[k] != COMMA,
        decreases end - c,
    {
        c = c + 1;
    }
    proof {
        lemma_first_index_at(value, 0, COMMA, c - start);
    }
    if c == end {
        return None;
    }
    assert(value.subrange(0, c - start) =~= src@.subrange(start as int, c as int));
    assert(value.subrange(c - start + 1, value.len() as int) =~= src@.subrange(
        c + 1,
        end as int,
    ));
    let offset = parse_decimal(src, start, c);
    let len = parse_decimal(src, c + 1, end);
    match (offset, len) {
        (Some(offset), Some(len)) => {
            if len == 0 || offset > u64::MAX - len {
                None
            } else {
                Some((offset, len))
            }
        },
        _ => None,
    }
}

// ---------------------------------------------------------------------------
// The manifest as the kernel holds it.

/// One image that a manifest declares. `elf` is relative to the start of the
/// bundle's ELF area; `None` (version 1) means the whole area.
#[derive(Debug, PartialEq, Eq)]
pub struct ManifestImage<'a> {
    name: &'a str,
    args: Vec<&'a str>,
    elf: Option<(u64, u64)>,
}

/// A parsed manifest: its version and the images it declares, at least one.
#[derive(Debug, PartialEq, Eq)]
pub struct Manifest<'a> {
    version: u8,
    images: Vec<ManifestImage<'a>>,
}

/// The arguments of one image, in order.
#[derive(Debug)]
pub struct ManifestArgs<'a> {
    items: Vec<&'a str>,
}

/// The images of a manifest, in order.
#[derive(Debug)]
pub struct ManifestImages<'a> {
    items: Vec<ManifestImage<'a>>,
}

/// The bytes of each string of `v`.
pub open spec fn str_bytes(v: Seq<&str>) -> Seq<Seq<u8>> {
    v.map_values(|s: &str| s.spec_bytes())
}

/// The model of each image of `v`.
pub open spec fn image_views(v: Seq<ManifestImage>) -> Seq<ImageModel> {
    v.map_values(|i: ManifestImage| i@)
}

impl<'a> View for ManifestImage<'a> {
    type V = ImageModel;

    closed spec fn view(&self) -> ImageModel {
        ImageModel { name: self.name.spec_bytes(), args: str_bytes(self.args@), elf: self.elf }
    }
}

impl<'a> View for Manifest<'a> {
    type V = ManifestModel;

    closed spec fn view(&self) -> ManifestModel {
        ManifestModel { version: self.version, images: image_views(self.images@) }
    }
}

impl<'a> View for ManifestArgs<'a> {
    type V = Seq<Seq<u8>>;

    closed spec fn view(&self) -> Seq<Seq<u8>> {
        str_bytes(self.items@)
    }
}

impl<'a> View for ManifestImages<'a> {
    type V = Seq<ImageModel>;

    closed spec fn view(&self) -> Seq<ImageModel> {
        image_views(self.items@)
    }
}

fn copy_strs<'a>(v: &Vec<&'a str>) -> (r: Vec<&'a str>)
    ensures
        r@ == v@,
{
    let mut r: Vec<&'a str> = Vec::new();
    let mut i: usize = 0;
    while i < v.len()
        invariant
            i <= v@.len(),
            r@ == v@.subrange(0, i as int),
        decreases v@.len() - i,
    {
        r.push(v[i]);
        i = i + 1;
        assert(r@ =~= v@.subrange(0, i as int));
    }
    assert(v@.subrange(0, i as int) =~= v@);
    r
}

impl<'a> ManifestImage<'a> {
    #[verifier::type_invariant]
    spec fn elf_fits(self) -> bool {
        self.elf matches Some(r) ==> r.0 + r.1 <= u64::MAX
    }

    fn duplicate(&self) -> (r: Self)
        ensures
            r@ == self@,
    {
        proof {
            use_type_invariant(self);
        }
        ManifestImage { name: self.name, args: copy_strs(&self.args), elf: self.elf }
    }

    pub fn name(&self) -> (r: &'a str)
        ensures
            r.spec_bytes() == self@.name,
    {
        self.name
    }

    /// The range of this image's ELF within the ELF area; `None` is the whole area.
    pub fn elf(&self) -> (r: Option<core::ops::Range<u64>>)
        ensures
            match self@.elf {
                None => r is None,
                Some((offset, len)) => (r matches Some(g) && g.start == offset && g.end == offset
                    + len),
            },
    {
        proof {
            use_type_invariant(self);
        }
        match self.elf {
            None => None,
            Some((offset, len)) => Some(offset..offset + len),
        }
    }

    pub fn args(&self) -> (r: ManifestArgs<'a>)
        ensures
            r@ == self@.args,
    {
        ManifestArgs { items: copy_strs(&self.args) }
    }
}

impl<'a> ManifestArgs<'a> {
    /// The next argument, if any is left.
    pub fn next(&mut self) -> (r: Option<&'a str>)
        ensures
            old(self)@.len() == 0 ==> r is None && final(self)@ == old(self)@,
            old(self)@.len() > 0 ==> (r matches Some(a) && a.spec_bytes() == old(self)@[0]),
            old(self)@.len() > 0 ==> final(self)@ == old(self)@.drop_first(),
    {
        if self.items.len() == 0 {
            None
        } else {
            let a = self.items.remove(0);
            proof {
                assert(str_bytes(self.items@) =~= str_bytes(old(self).items@).drop_first());
            }
            Some(a)
        }
    }
}

impl<'a> ManifestImages<'a> {
    /// The next image, if any is left.
    pub fn next(&mut self) -> (r: Option<ManifestImage<'a>>)
        ensures
            old(self)@.len() == 0 ==> r is None && final(self)@ == old(self)@,
            old(self)@.len() > 0 ==> (r matches Some(i) && i@ == old(self)@[0]),
            old(self)@.len() > 0 ==> final(self)@ == old(self)@.drop_first(),
    {
        if self.items.len() == 0 {
            None
        } else {
            let i = self.items.remove(0);
            proof {
                assert(image_views(self.items@) =~= image_views(old(self).items@).drop_first());
            }
            Some(i)
        }
    }
}

/// The arguments of a version 1 manifest, read from the lines at `q0` on.
fn read_v1_args<'a>(text: &'a str, src: &[u8], q0: usize) -> (r: Result<Vec<&'a str>, ManifestError>)
    requires
        text_over(text, src@),
        q0 <= src@.len() + 1,
    ensures
        match r {
            Ok(v) => v1_args(Seq::empty(), lines_from(src@, q0 as int)) == Ok::<
                Seq<Seq<u8>>,
                ManifestError,
            >(str_bytes(v@)),
            Err(e) => v1_args(Seq::empty(), lines_from(src@, q0 as int)) == Err::<
                Seq<Seq<u8>>,
                ManifestError,
            >(e),
        },
{
    let mut args: Vec<&'a str> = Vec::new();
    let mut q = q0;
    assert(str_bytes(args@) =~= Seq::<Seq<u8>>::empty());
    while q <= src.len()
        invariant
            text_over(text, src@),
            q <= src@.len() + 1,
            v1_args(Seq::empty(), lines_from(src@, q0 as int)) == v1_args(
                str_bytes(args@),
                lines_from(src@, q as int),
            ),
        decreases src@.len() + 1 - q,
    {
        let e = find_byte(src, q, NEWLINE);
        let ghost line = src@.subrange(q as int, e as int);
        proof {
            lemma_lines_step(src@, q as int);
            lemma_keys_exclusive(line);
        }
        match line_key(src, q, e) {
            LineKey::Version => {
                return Err(ManifestError::DuplicateVersion);
            },
            LineKey::Name | LineKey::Image => {
                return Err(ManifestError::InvalidOrder);
            },
            LineKey::Arg => {},
            _ => {
                return Err(ManifestError::UnknownKey);
            },
        }
        assert(line[3] == src@[q + 3]);
        assert(value_after(line, key_arg()) =~= src@.subrange(q + 4, e as int));
        if let Some(err) = check_argument(src, q + 4, e, args.len()) {
            return Err(err);
        }
        let arg = line_value(text, src, q, e, 4);
        let ghost args_before = args@;
        args.push(arg);
        assert(str_bytes(args@) =~= str_bytes(args_before).push(arg.spec_bytes()));
        q = e + 1;
    }
    assert(lines_from(src@, q as int) =~= Seq::<Seq<u8>>::empty());
    Ok(args)
}

/// The single image of a version 1 manifest, read from the lines at `p` on.
fn read_v1<'a>(text: &'a str, src: &[u8], p: usize) -> (r: Result<ManifestImage<'a>, ManifestError>)
    requires
        text_over(text, src@),
        p <= src@.len() + 1,
    ensures
        match r {
            Ok(image) => parse_v1(lines_from(src@, p as int)) == Ok::<ImageModel, ManifestError>(
                image@,
            ),
            Err(e) => parse_v1(lines_from(src@, p as int)) == Err::<ImageModel, ManifestError>(e),
        },
{
    if p > src.len() {
        assert(lines_from(src@, p as int) =~= Seq::<Seq<u8>>::empty());
        return Err(ManifestError::MissingName);
    }
    let e = find_byte(src, p, NEWLINE);
    let ghost line = src@.subrange(p as int, e as int);
    proof {
        lemma_lines_step(src@, p as int);
        lemma_keys_exclusive(line);
    }
    match line_key(src, p, e) {
        LineKey::Name => {},
        LineKey::Version => {
            return Err(ManifestError::DuplicateVersion);
        },
        _ => {
            return Err(ManifestError::InvalidOrder);
        },
    }
    assert(line[4] == src@[p + 4]);
    assert(value_after(line, key_name()) =~= src@.subrange(p + 5, e as int));
    if let Some(err) = check_name(src, p + 5, e) {
        return Err(err);
    }
    let name = line_value(text, src, p, e, 5);
    match read_v1_args(text, src, e + 1) {
        Ok(args) => Ok(ManifestImage { name, args, elf: None }),
        Err(err) => Err(err),
    }
}

/// Whether `range` overlaps the range of one of the first `n` images.
fn overlaps_earlier_images(images: &Vec<ManifestImage>, n: usize, range: (u64, u64)) -> (r: bool)
    requires
        n <= images@.len(),
    ensures
        r == overlaps_earlier(image_views(images@), n as int, range),
{
    let ghost views = image_views(images@);
    let mut i: usize = 0;
    while i < n
        invariant
            i <= n <= images@.len(),
            views == image_views(images@),
            forall|k: int|
                0 <= k < i ==> !((#[trigger] views[k]).elf is Some && ranges_overlap(
                    views[k].elf->0,
                    range,
                )),
        decreases n - i,
    {
        assert(views[i as int] == images@[i as int]@);
        if let Some(q) = images[i].elf {
            if (range.0 as u128) < (q.0 as u128) + (q.1 as u128) && (q.0 as u128) < (range.0 as u128)
                + (range.1 as u128) {
                assert(views[i as int].elf is Some && ranges_overlap(views[i as int].elf->0, range));
                return true;
            }
        }
        i = i + 1;
    }
    false
}

/// Reads the line `src[p..e]` of a version 2 manifest into `images`.
fn v2_line<'a>(
    images: &mut Vec<ManifestImage<'a>>,
    text: &'a str,
    src: &[u8],
    p: usize,
    e: usize,
) -> (r: Result<(), ManifestError>)
    requires
        text_over(text, src@),
        p <= e <= src@.len(),
        e == first_index(src@, p as int, NEWLINE),
    ensures
        match r {
            Ok(_) => v2_step(image_views(old(images)@), src@.subrange(p as int, e as int)) == Ok::<
                Seq<ImageModel>,
                ManifestError,
            >(image_views(final(images)@)),
            Err(err) => v2_step(image_views(old(images)@), src@.subrange(p as int, e as int))
                == Err::<Seq<ImageModel>, ManifestError>(err),
        },
{
    let ghost line = src@.subrange(p as int, e as int);
    let ghost before = image_views(images@);
    let n = images.len();
    proof {
        lemma_keys_exclusive(line);
        if n > 0 {
            assert(before[n - 1] == images@[n - 1]@);
        }
    }
    match line_key(src, p, e) {
        LineKey::Image => {
            if n > 0 && images[n - 1].elf.is_none() {
                return Err(ManifestError::MissingElf);
            }
            assert(line[5] == src@[p + 5]);
            assert(value_after(line, key_image()) =~= src@.subrange(p + 6, e as int));
            if let Some(err) = check_name(src, p + 6, e) {
                return Err(err);
            }
            if n == IMAGE_MAX_COUNT {
                return Err(ManifestError::TooManyImages);
            }
            let name = line_value(text, src, p, e, 6);
            let image = ManifestImage { name, args: Vec::new(), elf: None };
            images.push(image);
            proof {
                assert(str_bytes(image.args@) =~= Seq::<Seq<u8>>::empty());
                assert(image_views(images@) =~= before.push(image@));
            }
            Ok(())
        },
        LineKey::Arg => {
            if n == 0 || images[n - 1].elf.is_some() {
                return Err(ManifestError::InvalidOrder);
            }
            assert(line[3] == src@[p + 3]);
            assert(value_after(line, key_arg()) =~= src@.subrange(p + 4, e as int));
            if let Some(err) = check_argument(src, p + 4, e, images[n - 1].args.len()) {
                return Err(err);
            }
            let arg = line_value(text, src, p, e, 4);
            let last = images.pop().unwrap();
            let ghost last_before = last@;
            proof {
                use_type_invariant(&last);
            }
            let ManifestImage { name, args, elf } = last;
            let mut args = args;
            args.push(arg);
            let last = ManifestImage { name, args, elf };
            proof {
                assert(str_bytes(last.args@) =~= last_before.args.push(arg.spec_bytes()));
            }
            images.push(last);
            proof {
                assert(image_views(images@) =~= before.update(
                    n - 1,
                    ImageModel { args: before.last().args.push(arg.spec_bytes()), ..before.last() },
                ));
            }
            Ok(())
        },
        LineKey::Elf => {
            if n == 0 || images[n - 1].elf.is_some() {
                return Err(ManifestError::InvalidOrder);
            }
            assert(line[3] == src@[p + 3]);
            assert(value_after(line, key_elf()) =~= src@.subrange(p + 4, e as int));
            let range = match parse_elf_range(src, p + 4, e) {
                Some(range) => range,
                None => {
                    return Err(ManifestError::MalformedElf);
                },
            };
            if overlaps_earlier_images(images, n - 1, range) {
                return Err(ManifestError::OverlappingElfRange);
            }
            let last = images.pop().unwrap();
            let ManifestImage { name, args, elf: _ } = last;
            images.push(ManifestImage { name, args, elf: Some(range) });
            proof {
                assert(image_views(images@) =~= before.update(
                    n - 1,
                    ImageModel { elf: Some(range), ..before.last() },
                ));
            }
            Ok(())
        },
        LineKey::Version => Err(ManifestError::DuplicateVersion),
        _ => Err(ManifestError::UnknownKey),
    }
}

/// The images of a version 2 manifest, read from the lines at `p0` on.
fn read_v2<'a>(text: &'a str, src: &[u8], p0: usize) -> (r: Result<
    Vec<ManifestImage<'a>>,
    ManifestError,
>)
    requires
        text_over(text, src@),
        p0 <= src@.len() + 1,
    ensures
        match r {
            Ok(v) => parse_v2(lines_from(src@, p0 as int)) == Ok::<
                Seq<ImageModel>,
                ManifestError,
            >(image_views(v@)),
            Err(e) => parse_v2(lines_from(src@, p0 as int)) == Err::<
                Seq<ImageModel>,
                ManifestError,
            >(e),
        },
{
    let mut images: Vec<ManifestImage<'a>> = Vec::new();
    let mut q = p0;
    assert(image_views(images@) =~= Seq::<ImageModel>::empty());
    while q <= src.len()
        invariant
            text_over(text, src@),
            q <= src@.len() + 1,
            v2_run(Seq::empty(), lines_from(src@, p0 as int)) == v2_run(
                image_views(images@),
                lines_from(src@, q as int),
            ),
        decreases src@.len() + 1 - q,
    {
        let e = find_byte(src, q, NEWLINE);
        proof {
            lemma_lines_step(src@, q as int);
        }
        match v2_line(&mut images, text, src, q, e) {
            Ok(()) => {},
            Err(err) => {
                return Err(err);
            },
        }
        q = e + 1;
    }
    assert(lines_from(src@, q as int) =~= Seq::<Seq<u8>>::empty());
    let n = images.len();
    if n == 0 {
        return Err(ManifestError::MissingImage);
    }
    assert(image_views(images@)[n - 1] == images@[n - 1]@);
    if images[n - 1].elf.is_none() {
        return Err(ManifestError::MissingElf);
    }
    Ok(images)
}

/// What the first line `src[0..e0]` says of the version.
fn read_version(src: &[u8], e0: usize) -> (r: Result<u8, ManifestError>)
    requires
        e0 <= src@.len(),
    ensures
        r == version_of(src@.subrange(0, e0 as int)),
{
    let ghost first = src@.subrange(0, e0 as int);
    proof {
        lemma_keys_exclusive(first);
        assert(key_version().push('1' as u8).subrange(0, 8) =~= key_version());
        assert(key_version().push('2' as u8).subrange(0, 8) =~= key_version());
    }
    match line_key(src, 0, e0) {
        LineKey::Version => {
            if e0 == 9 && src[8] == '1' as u8 {
                assert(first =~= key_version().push('1' as u8));
                Ok(1)
            } else if e0 == 9 && src[8] == '2' as u8 {
                assert(first =~= key_version().push('2' as u8));
                Ok(2)
            } else {
                proof {
                    if e0 == 9 {
                        assert(first[8] == src@[8]);
                    }
                }
                Err(ManifestError::MissingVersion)
            }
        },
        LineKey::Name | LineKey::Arg | LineKey::Image => Err(ManifestError::InvalidOrder),
        _ => Err(ManifestError::MissingVersion),
    }
}

impl<'a> Manifest<'a> {
    #[verifier::type_invariant]
    spec fn has_image(self) -> bool {
        self.images.len() >= 1
    }

    /// Parses and checks a manifest, keeping its names and arguments as
    /// slices of `bytes`.
    pub fn parse(bytes: &'a [u8]) -> (r: Result<Self, ManifestError>)
        ensures
            match r {
                Ok(m) => manifest_of(bytes@) == Ok::<ManifestModel, ManifestError>(m@),
                Err(e) => manifest_of(bytes@) == Err::<ManifestModel, ManifestError>(e),
            },
    {
        if bytes.len() > MANIFEST_MAX_LEN {
            return Err(ManifestError::TooLong);
        }
        let text = match str_from_utf8(bytes) {
            Some(text) => text,
            None => {
                return Err(ManifestError::InvalidUtf8);
            },
        };
        let n = bytes.len();
        if n == 0 || bytes[n - 1] != NEWLINE {
            return Err(ManifestError::MissingTrailingLf);
        }
        let src = vstd::slice::slice_subrange(bytes, 0, n - 1);
        proof {
            assert(src@ =~= bytes@.drop_last());
            assert(text.spec_bytes().subrange(0, src@.len() as int) =~= src@);
        }
        if n - 1 > 0 && bytes[n - 2] == NEWLINE {
            return Err(ManifestError::UnknownKey);
        }
        let e0 = find_byte(src, 0, NEWLINE);
        proof {
            lemma_lines_step(src@, 0);
        }
        let version = match read_version(src, e0) {
            Ok(version) => version,
            Err(err) => {
                return Err(err);
            },
        };
        if version == 1 {
            match read_v1(text, src, e0 + 1) {
                Ok(image) => {
                    let mut images: Vec<ManifestImage<'a>> = Vec::new();
                    images.push(image);
                    proof {
                        assert(image_views(images@) =~= seq![image@]);
                    }
                    Ok(Manifest { version, images })
                },
                Err(err) => Err(err),
            }
        } else {
            match read_v2(text, src, e0 + 1) {
                Ok(images) => Ok(Manifest { version, images }),
                Err(err) => Err(err),
            }
        }
    }

    /// The format version, 1 or 2.
    pub fn version(&self) -> (r: u8)
        ensures
            r == self@.version,
    {
        self.version
    }

    /// The `name=` value in version 1, the first image's name in version 2.
    pub fn name(&self) -> (r: &'a str)
        ensures
            self@.images.len() > 0,
            r.spec_bytes() == self@.images[0].name,
    {
        proof {
            use_type_invariant(self);
        }
        self.images[0].name()
    }

    /// The first image's arguments: the `arg=` lines of version 1.
    pub fn args(&self) -> (r: ManifestArgs<'a>)
        ensures
            self@.images.len() > 0,
            r@ == self@.images[0].args,
    {
        proof {
            use_type_invariant(self);
        }
        self.images[0].args()
    }

    /// The declared images in order; version 1 declares exactly one, which
    /// spans the whole ELF area.
    pub fn images(&self) -> (r: ManifestImages<'a>)
        ensures
            r@ == self@.images,
    {
        let mut items: Vec<ManifestImage<'a>> = Vec::new();
        let mut i: usize = 0;
        while i < self.images.len()
            invariant
                i <= self.images@.len(),
                image_views(items@) == image_views(self.images@).subrange(0, i as int),
            decreases self.images@.len() - i,
        {
            let image = self.images[i].duplicate();
            let ghost items_before = items@;
            items.push(image);
            assert(image_views(self.images@)[i as int] == self.images@[i as int]@);
            assert(image_views(items@) =~= image_views(items_before).push(image@));
            i = i + 1;
            assert(image_views(items@) =~= image_views(self.images@).subrange(0, i as int));
        }
        assert(image_views(self.images@).subrange(0, i as int) =~= image_views(self.images@));
        ManifestImages { items }
    }
}

// ---------------------------------------------------------------------------
// What every accepted manifest satisfies.

/// An argument that the format admits.
pub open spec fn argument_ok(arg: Seq<u8>) -> bool {
    arg.len() <= ARG_MAX_LEN && !arg.contains(0u8) && !arg.contains(CARRIAGE_RETURN)
}

/// An image within the format's limits: a valid name, at most
/// `ARG_MAX_COUNT` admissible arguments, and a non-empty ELF range whose end
/// fits in `u64`.
pub open spec fn image_ok(image: ImageModel) -> bool {
    &&& name_error(image.name) is None
    &&& image.args.len() <= ARG_MAX_COUNT
    &&& forall|j: int| 0 <= j < image.args.len() ==> argument_ok(#[trigger] image.args[j])
    &&& image.elf matches Some(r) ==> 0 < r.1 && r.0 + r.1 <= u64::MAX
}

/// No two images' ELF ranges overlap.
pub open spec fn ranges_disjoint(images: Seq<ImageModel>) -> bool {
    forall|i: int, j: int|
        0 <= i < j < images.len() && (#[trigger] images[i]).elf is Some && (
        #[trigger] images[j]).elf is Some ==> !ranges_overlap(images[i].elf->0, images[j].elf->0)
}

/// The images read so far from a version 2 manifest: within the limits, each
/// but the last closed by its `elf=` line, and no two ranges overlapping.
pub open spec fn v2_images_ok(images: Seq<ImageModel>) -> bool {
    &&& images.len() <= IMAGE_MAX_COUNT
    &&& forall|i: int| 0 <= i < images.len() ==> image_ok(#[trigger] images[i])
    &&& forall|i: int| 0 <= i < images.len() - 1 ==> (#[trigger] images[i]).elf is Some
    &&& ranges_disjoint(images)
}

/// A manifest within every limit of the format.
pub open spec fn manifest_ok(m: ManifestModel) -> bool {
    &&& 1 <= m.images.len() <= IMAGE_MAX_COUNT
    &&& forall|i: int| 0 <= i < m.images.len() ==> image_ok(#[trigger] m.images[i])
    &&& m.version == 1 ==> m.images.len() == 1 && m.images[0].elf is None
    &&& m.version == 2 ==> ranges_disjoint(m.images) && forall|i: int|
        0 <= i < m.images.len() ==> (#[trigger] m.images[i]).elf is Some
    &&& m.version == 1 || m.version == 2
}

proof fn lemma_v1_args_ok(args: Seq<Seq<u8>>, lines: Seq<Seq<u8>>)
    requires
        args.len() <= ARG_MAX_COUNT,
        forall|j: int| 0 <= j < args.len() ==> argument_ok(#[trigger] args[j]),
        v1_args(args, lines) is Ok,
    ensures
        v1_args(args, lines)->Ok_0.len() <= ARG_MAX_COUNT,
        forall|j: int|
            0 <= j < v1_args(args, lines)->Ok_0.len() ==> argument_ok(
                #[trigger] v1_args(args, lines)->Ok_0[j],
            ),
    decreases lines.len(),
{
    if lines.len() > 0 {
        let arg = value_after(lines[0], key_arg());
        let next = args.push(arg);
        assert forall|j: int| 0 <= j < next.len() implies argument_ok(#[trigger] next[j]) by {
            if j < args.len() {
                assert(next[j] == args[j]);
            }
        }
        lemma_v1_args_ok(next, lines.drop_first());
    }
}

proof fn lemma_v2_step_ok(images: Seq<ImageModel>, line: Seq<u8>)
    requires
        v2_images_ok(images),
        v2_step(images, line) is Ok,
    ensures
        v2_images_ok(v2_step(images, line)->Ok_0),
{
    let n = images.len();
    let next = v2_step(images, line)->Ok_0;
    if has_prefix(line, key_image()) {
        assert forall|i: int| 0 <= i < next.len() implies image_ok(#[trigger] next[i]) by {
            if i < n {
                assert(next[i] == images[i]);
            }
        }
        assert forall|i: int| 0 <= i < next.len() - 1 implies (#[trigger] next[i]).elf is Some by {
            assert(next[i] == images[i]);
        }
        assert forall|i: int, j: int|
            0 <= i < j < next.len() && (#[trigger] next[i]).elf is Some && (
            #[trigger] next[j]).elf is Some implies !ranges_overlap(
            next[i].elf->0,
            next[j].elf->0,
        ) by {
            assert(next[i] == images[i]);
            assert(next[j] == images[j]);
        }
    } else if has_prefix(line, key_arg()) {
        let arg = value_after(line, key_arg());
        let last = images.last();
        assert(image_ok(last));
        let new_last = ImageModel { args: last.args.push(arg), ..last };
        assert forall|j: int| 0 <= j < new_last.args.len() implies argument_ok(
            #[trigger] new_last.args[j],
        ) by {
            if j < last.args.len() {
                assert(new_last.args[j] == last.args[j]);
            }
        }
        assert(image_ok(new_last));
        assert forall|i: int| 0 <= i < next.len() implies image_ok(#[trigger] next[i]) by {
            if i < n - 1 {
                assert(next[i] == images[i]);
            }
        }
        assert forall|i: int| 0 <= i < next.len() - 1 implies (#[trigger] next[i]).elf is Some by {
            assert(next[i] == images[i]);
        }
        assert forall|i: int, j: int|
            0 <= i < j < next.len() && (#[trigger] next[i]).elf is Some && (
            #[trigger] next[j]).elf is Some implies !ranges_overlap(
            next[i].elf->0,
            next[j].elf->0,
        ) by {
            assert(next[i] == images[i]);
        }
    } else {
        let value = value_after(line, key_elf());
        let r = elf_range(value)->0;
        let last = images.last();
        assert(image_ok(last));
        assert forall|i: int| 0 <= i < next.len() implies image_ok(#[trigger] next[i]) by {
            if i < n - 1 {
                assert(next[i] == images[i]);
            }
        }
        assert forall|i: int| 0 <= i < next.len() - 1 implies (#[trigger] next[i]).elf is Some by {
            assert(next[i] == images[i]);
        }
        assert forall|i: int, j: int|
            0 <= i < j < next.len() && (#[trigger] next[i]).elf is Some && (
            #[trigger] next[j]).elf is Some implies !ranges_overlap(
            next[i].elf->0,
            next[j].elf->0,
        ) by {
            assert(next[i] == images[i]);
            if j < n - 1 {
                assert(next[j] == images[j]);
            } else {
                assert(!(images[i].elf is Some && ranges_overlap(images[i].elf->0, r)));
            }
        }
    }
}

proof fn lemma_v2_run_ok(images: Seq<ImageModel>, lines: Seq<Seq<u8>>)
    requires
        v2_images_ok(images),
        v2_run(images, lines) is Ok,
    ensures
        v2_images_ok(v2_run(images, lines)->Ok_0),
    decreases lines.len(),
{
    if lines.len() > 0 {
        lemma_v2_step_ok(images, lines[0]);
        lemma_v2_run_ok(v2_step(images, lines[0])->Ok_0, lines.drop_first());
    }
}

/// Every manifest that parses stays within the format's limits: one to
/// `IMAGE_MAX_COUNT` images with valid names and at most `ARG_MAX_COUNT`
/// admissible arguments each; version 1 declares one image over the whole ELF
/// area, version 2 gives every image a non-empty ELF range, no two overlapping.
pub proof fn lemma_parsed_manifest_ok(bytes: Seq<u8>)
    requires
        manifest_of(bytes) is Ok,
    ensures
        manifest_ok(manifest_of(bytes)->Ok_0),
{
    let src = bytes.drop_last();
    let lines = lines_from(src, 0);
    let m = manifest_of(bytes)->Ok_0;
    let rest = lines.drop_first();
    if m.version == 1 {
        let name_line = rest[0];
        lemma_v1_args_ok(Seq::empty(), rest.drop_first());
        assert(image_ok(m.images[0]));
    } else {
        assert(v2_images_ok(Seq::empty()));
        lemma_v2_run_ok(Seq::empty(), rest);
    }
}


proof fn lemma_v1_args_not_utf8(args: Seq<Seq<u8>>, lines: Seq<Seq<u8>>)
    ensures
        v1_args(args, lines) != Err::<Seq<Seq<u8>>, ManifestError>(ManifestError::InvalidUtf8),
    decreases lines.len(),
{
    if lines.len() > 0 {
        lemma_v1_args_not_utf8(args.push(value_after(lines[0], key_arg())), lines.drop_first());
    }
}

proof fn lemma_v2_run_not_utf8(images: Seq<ImageModel>, lines: Seq<Seq<u8>>)
    ensures
        v2_run(images, lines) != Err::<Seq<ImageModel>, ManifestError>(ManifestError::InvalidUtf8),
    decreases lines.len(),
{
    if lines.len() > 0 {
        match v2_step(images, lines[0]) {
            Ok(next) => lemma_v2_run_not_utf8(next, lines.drop_first()),
            Err(e) => {},
        }
    }
}

/// `InvalidUtf8` is the answer for bytes within the size limit exactly when
/// they are not valid UTF-8: no other rule of the format ever reports it, so
/// non-ASCII text is as welcome as ASCII wherever the format admits text.
pub proof fn lemma_invalid_utf8_exactly(bytes: Seq<u8>)
    requires
        bytes.len() <= MANIFEST_MAX_LEN,
    ensures
        manifest_of(bytes) == Err::<ManifestModel, ManifestError>(ManifestError::InvalidUtf8)
            <==> !valid_utf8(bytes),
{
    if valid_utf8(bytes) && bytes.len() > 0 && bytes.last() == NEWLINE {
        let src = bytes.drop_last();
        let lines = lines_from(src, 0);
        lemma_lines_step(src, 0);
        let rest = lines.drop_first();
        if rest.len() > 0 {
            lemma_v1_args_not_utf8(Seq::empty(), rest.drop_first());
        }
        lemma_v2_run_not_utf8(Seq::empty(), rest);
    }
}

/// The bytes of a version 1 manifest naming `name` with the single argument `arg`.
pub open spec fn v1_manifest_bytes(name: Seq<u8>, arg: Seq<u8>) -> Seq<u8> {
    key_version().push(('1' as u8)).push(NEWLINE) + key_name() + name + seq![NEWLINE] + key_arg()
        + arg + seq![NEWLINE]
}

/// A version 1 manifest with a valid name and one argument parses to that
/// name and exactly the bytes written after `arg=`, for any argument of valid
/// UTF-8 (non-ASCII characters included) up to `ARG_MAX_LEN` bytes that holds
/// no NUL, carriage return or newline, as long as the whole fits the limit.
#[verifier::rlimit(30)]
pub proof fn lemma_v1_single_argument(name: Seq<u8>, arg: Seq<u8>)
    requires
        1 <= name.len() <= NAME_MAX_LEN,
        forall|i: int| 0 <= i < name.len() ==> name_byte(#[trigger] name[i]),
        arg.len() <= ARG_MAX_LEN,
        valid_utf8(arg),
        forall|i: int|
            0 <= i < arg.len() ==> #[trigger] arg[i] != 0u8 && arg[i] != CARRIAGE_RETURN
                && arg[i] != NEWLINE,
        v1_manifest_bytes(name, arg).len() <= MANIFEST_MAX_LEN,
    ensures
        manifest_of(v1_manifest_bytes(name, arg)) == Ok::<ManifestModel, ManifestError>(
            ManifestModel {
                version: 1,
                images: seq![ImageModel { name, args: seq![arg], elf: None }],
            },
        ),
{
    broadcast use vstd::utf8::valid_utf8_concat;

    let b = v1_manifest_bytes(name, arg);
    let head = key_version().push(('1' as u8)).push(NEWLINE) + key_name() + name + seq![NEWLINE]
        + key_arg();
    assert forall|i: int| 0 <= i < head.len() implies #[trigger] head[i] < 0x80 by {
        if 15 <= i < 15 + name.len() {
            assert(head[i] == name[i - 15]);
        }
    }
    crate::text::lemma_ascii_valid_utf8(head);
    let nl = seq![NEWLINE];
    crate::text::lemma_ascii_valid_utf8(nl);
    assert(b =~= (head + arg) + nl);
    assert(valid_utf8(head + arg));
    assert(valid_utf8(b));
    let src = b.drop_last();
    assert(src =~= head + arg);
    let e0: int = 9;
    let e1: int = 15 + name.len() as int;
    let e2: int = src.len() as int;
    assert(src[e0] == NEWLINE);
    assert(src[e1] == NEWLINE);
    assert forall|k: int| 0 <= k < e0 implies src[k] != NEWLINE by {}
    assert forall|k: int| e0 + 1 <= k < e1 implies src[k] != NEWLINE by {
        if k >= 15 {
            assert(src[k] == name[k - 15]);
        }
    }
    assert forall|k: int| e1 + 1 <= k < e2 implies src[k] != NEWLINE by {
        if k >= e1 + 5 {
            assert(src[k] == arg[k - e1 - 5]);
        }
    }
    lemma_first_index_at(src, 0, NEWLINE, e0);
    lemma_first_index_at(src, e0 + 1, NEWLINE, e1);
    lemma_first_index_at(src, e1 + 1, NEWLINE, e2);
    lemma_lines_step(src, 0);
    lemma_lines_step(src, e0 + 1);
    lemma_lines_step(src, e1 + 1);
    let lines = lines_from(src, 0);
    let l0 = src.subrange(0, e0);
    let l1 = src.subrange(e0 + 1, e1);
    let l2 = src.subrange(e1 + 1, e2);
    assert(l0 =~= key_version().push(('1' as u8)));
    assert(l1 =~= key_name() + name);
    assert(l2 =~= key_arg() + arg);
    assert(lines_from(src, e2 + 1) =~= Seq::<Seq<u8>>::empty());
    let rest = lines.drop_first();
    assert(rest[0] == l1);
    assert(rest.drop_first()[0] == l2);
    assert(rest.drop_first().drop_first() =~= Seq::<Seq<u8>>::empty());
    assert(src.last() != NEWLINE);
    assert(version_of(lines[0]) == Ok::<u8, ManifestError>(1));
    assert(l1.subrange(0, 5) =~= key_name());
    assert(value_after(l1, key_name()) =~= name);
    assert(name_error(name) is None);
    assert(l2.subrange(0, 4) =~= key_arg());
    assert(!has_prefix(l2, key_version()) && !has_prefix(l2, key_name()) && !has_prefix(l2, key_image())) by {
        if has_prefix(l2, key_version()) {
            assert(l2[0] == key_version()[0]);
        }
        if has_prefix(l2, key_name()) {
            assert(l2[0] == key_name()[0]);
        }
        if has_prefix(l2, key_image()) {
            assert(l2[0] == key_image()[0]);
        }
    }
    assert(value_after(l2, key_arg()) =~= arg);
    assert(!arg.contains(0u8));
    assert(!arg.contains(CARRIAGE_RETURN));
    assert(argument_error(arg, 0) is None);
    let tail = rest.drop_first();
    assert(v1_args(seq![arg], tail.drop_first()) == Ok::<Seq<Seq<u8>>, ManifestError>(seq![arg]));
    assert(Seq::<Seq<u8>>::empty().push(arg) =~= seq![arg]);
    assert(v1_args(Seq::empty(), tail) == Ok::<Seq<Seq<u8>>, ManifestError>(seq![arg]));
}

} // verus!
