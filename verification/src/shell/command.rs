//! Telling the shell's commands apart.

use vstd::prelude::*;
use vstd::string::StringSliceAdditionalSpecFns;
use crate::bytes::{has_prefix, range_eq, range_has_prefix};
use crate::text::substring;

verus! {

pub const SPACE: u8 = 0x20;

/// One command line, its argument borrowed from the line.
#[derive(Debug, Clone, Copy, PartialEq, Eq)]
pub enum Command<'a> {
    Empty,
    Help,
    Info,
    Uptime,
    Memory,
    Clear,
    Shutdown,
    Echo(&'a str),
    Ls(&'a str),
    Cat(&'a str),
    Rm(&'a str),
    Mkdir(&'a str),
    Rmdir(&'a str),
    Unknown(&'a str),
}

/// A command with its argument as bytes.
pub enum CommandView {
    Empty,
    Help,
    Info,
    Uptime,
    Memory,
    Clear,
    Shutdown,
    Echo(Seq<u8>),
    Ls(Seq<u8>),
    Cat(Seq<u8>),
    Rm(Seq<u8>),
    Mkdir(Seq<u8>),
    Rmdir(Seq<u8>),
    Unknown(Seq<u8>),
}

impl<'a> View for Command<'a> {
    type V = CommandView;

    open spec fn view(&self) -> CommandView {
        match *self {
            Command::Empty => CommandView::Empty,
            Command::Help => CommandView::Help,
            Command::Info => CommandView::Info,
            Command::Uptime => CommandView::Uptime,
            Command::Memory => CommandView::Memory,
            Command::Clear => CommandView::Clear,
            Command::Shutdown => CommandView::Shutdown,
            Command::Echo(a) => CommandView::Echo(a.spec_bytes()),
            Command::Ls(a) => CommandView::Ls(a.spec_bytes()),
            Command::Cat(a) => CommandView::Cat(a.spec_bytes()),
            Command::Rm(a) => CommandView::Rm(a.spec_bytes()),
            Command::Mkdir(a) => CommandView::Mkdir(a.spec_bytes()),
            Command::Rmdir(a) => CommandView::Rmdir(a.spec_bytes()),
            Command::Unknown(a) => CommandView::Unknown(a.spec_bytes()),
        }
    }
}

/// ASCII whitespace: space, tab, line feed, form feed, carriage return.
pub open spec fn is_ascii_space(b: u8) -> bool {
    b == 0x20 || b == 0x09 || b == 0x0a || b == 0x0c || b == 0x0d
}

/// The first index at or after `i` that holds no ASCII whitespace.
pub open spec fn trim_start(s: Seq<u8>, i: int) -> int
    decreases s.len() - i,
{
    if 0 <= i < s.len() && is_ascii_space(s[i]) {
        trim_start(s, i + 1)
    } else {
        i
    }
}

/// The end, at or below `j` and above `lo`, left after dropping trailing ASCII whitespace.
pub open spec fn trim_end(s: Seq<u8>, lo: int, j: int) -> int
    decreases j - lo,
{
    if lo < j && is_ascii_space(s[j - 1]) {
        trim_end(s, lo, j - 1)
    } else {
        j
    }
}

/// `s` without its leading and trailing ASCII whitespace.
pub open spec fn trimmed(s: Seq<u8>) -> Seq<u8> {
    let a = trim_start(s, 0);
    s.subrange(a, trim_end(s, a, s.len() as int))
}

/// The first index at or after `i` that holds no space.
pub open spec fn spaces_end(s: Seq<u8>, i: int) -> int
    decreases s.len() - i,
{
    if 0 <= i < s.len() && s[i] == SPACE {
        spaces_end(s, i + 1)
    } else {
        i
    }
}

/// The argument after a command word: what follows position `k`, without
/// its leading spaces.
pub open spec fn argument_at(t: Seq<u8>, k: int) -> Seq<u8> {
    t.subrange(spaces_end(t, k), t.len() as int)
}

pub open spec fn word_help() -> Seq<u8> {
    seq!['h' as u8, 'e' as u8, 'l' as u8, 'p' as u8]
}

pub open spec fn word_info() -> Seq<u8> {
    seq!['i' as u8, 'n' as u8, 'f' as u8, 'o' as u8]
}

pub open spec fn word_uptime() -> Seq<u8> {
    seq!['u' as u8, 'p' as u8, 't' as u8, 'i' as u8, 'm' as u8, 'e' as u8]
}

pub open spec fn word_memory() -> Seq<u8> {
    seq!['m' as u8, 'e' as u8, 'm' as u8, 'o' as u8, 'r' as u8, 'y' as u8]
}

pub open spec fn word_clear() -> Seq<u8> {
    seq!['c' as u8, 'l' as u8, 'e' as u8, 'a' as u8, 'r' as u8]
}

pub open spec fn word_shutdown() -> Seq<u8> {
    seq!['s' as u8, 'h' as u8, 'u' as u8, 't' as u8, 'd' as u8, 'o' as u8, 'w' as u8, 'n' as u8]
}

pub open spec fn word_echo() -> Seq<u8> {
    seq!['e' as u8, 'c' as u8, 'h' as u8, 'o' as u8]
}

pub open spec fn word_ls() -> Seq<u8> {
    seq!['l' as u8, 's' as u8]
}

pub open spec fn word_cat() -> Seq<u8> {
    seq!['c' as u8, 'a' as u8, 't' as u8]
}

pub open spec fn word_rm() -> Seq<u8> {
    seq!['r' as u8, 'm' as u8]
}

pub open spec fn word_mkdir() -> Seq<u8> {
    seq!['m' as u8, 'k' as u8, 'd' as u8, 'i' as u8, 'r' as u8]
}

pub open spec fn word_rmdir() -> Seq<u8> {
    seq!['r' as u8, 'm' as u8, 'd' as u8, 'i' as u8, 'r' as u8]
}

/// What the trimmed command line `t` asks for. Words are matched exactly;
/// `echo`, `rm`, `mkdir`, `rmdir`, `ls` and `cat` take what follows a space
/// after them, without its leading spaces, as their argument.
pub open spec fn command_of(t: Seq<u8>) -> CommandView {
    if t.len() == 0 {
        CommandView::Empty
    } else if t == word_help() {
        CommandView::Help
    } else if t == word_info() {
        CommandView::Info
    } else if t == word_uptime() {
        CommandView::Uptime
    } else if t == word_memory() {
        CommandView::Memory
    } else if t == word_clear() {
        CommandView::Clear
    } else if t == word_shutdown() {
        CommandView::Shutdown
    } else if t == word_echo() {
        CommandView::Echo(Seq::empty())
    } else if has_prefix(t, word_echo().push(SPACE)) {
        CommandView::Echo(argument_at(t, 5))
    } else if t == word_ls() {
        CommandView::Ls(Seq::empty())
    } else if t == word_cat() {
        CommandView::Cat(Seq::empty())
    } else if t == word_rm() {
        CommandView::Rm(Seq::empty())
    } else if has_prefix(t, word_rm().push(SPACE)) {
        CommandView::Rm(argument_at(t, 3))
    } else if t == word_mkdir() {
        CommandView::Mkdir(Seq::empty())
    } else if has_prefix(t, word_mkdir().push(SPACE)) {
        CommandView::Mkdir(argument_at(t, 6))
    } else if t == word_rmdir() {
        CommandView::Rmdir(Seq::empty())
    } else if has_prefix(t, word_rmdir().push(SPACE)) {
        CommandView::Rmdir(argument_at(t, 6))
    } else if has_prefix(t, word_ls().push(SPACE)) {
        CommandView::Ls(argument_at(t, 3))
    } else if has_prefix(t, word_cat().push(SPACE)) {
        CommandView::Cat(argument_at(t, 4))
    } else {
        CommandView::Unknown(t)
    }
}

fn word_help_bytes() -> (r: [u8; 4])
    ensures
        r@ == word_help(),
{
    let r = ['h' as u8, 'e' as u8, 'l' as u8, 'p' as u8];
    assert(r@ =~= word_help());
    r
}

fn word_info_bytes() -> (r: [u8; 4])
    ensures
        r@ == word_info(),
{
    let r = ['i' as u8, 'n' as u8, 'f' as u8, 'o' as u8];
    assert(r@ =~= word_info());
    r
}

fn word_uptime_bytes() -> (r: [u8; 6])
    ensures
        r@ == word_uptime(),
{
    let r = ['u' as u8, 'p' as u8, 't' as u8, 'i' as u8, 'm' as u8, 'e' as u8];
    assert(r@ =~= word_uptime());
    r
}

fn word_memory_bytes() -> (r: [u8; 6])
    ensures
        r@ == word_memory(),
{
    let r = ['m' as u8, 'e' as u8, 'm' as u8, 'o' as u8, 'r' as u8, 'y' as u8];
    assert(r@ =~= word_memory());
    r
}

fn word_clear_bytes() -> (r: [u8; 5])
    ensures
        r@ == word_clear(),
{
    let r = ['c' as u8, 'l' as u8, 'e' as u8, 'a' as u8, 'r' as u8];
    assert(r@ =~= word_clear());
    r
}

fn word_shutdown_bytes() -> (r: [u8; 8])
    ensures
        r@ == word_shutdown(),
{
    let r = ['s' as u8, 'h' as u8, 'u' as u8, 't' as u8, 'd' as u8, 'o' as u8, 'w' as u8, 'n' as u8];
    assert(r@ =~= word_shutdown());
    r
}

fn word_echo_bytes() -> (r: [u8; 4])
    ensures
        r@ == word_echo(),
{
    let r = ['e' as u8, 'c' as u8, 'h' as u8, 'o' as u8];
    assert(r@ =~= word_echo());
    r
}

fn word_ls_bytes() -> (r: [u8; 2])
    ensures
        r@ == word_ls(),
{
    let r = ['l' as u8, 's' as u8];
    assert(r@ =~= word_ls());
    r
}

fn word_cat_bytes() -> (r: [u8; 3])
    ensures
        r@ == word_cat(),
{
    let r = ['c' as u8, 'a' as u8, 't' as u8];
    assert(r@ =~= word_cat());
    r
}

fn word_rm_bytes() -> (r: [u8; 2])
    ensures
        r@ == word_rm(),
{
    let r = ['r' as u8, 'm' as u8];
    assert(r@ =~= word_rm());
    r
}

fn word_mkdir_bytes() -> (r: [u8; 5])
    ensures
        r@ == word_mkdir(),
{
    let r = ['m' as u8, 'k' as u8, 'd' as u8, 'i' as u8, 'r' as u8];
    assert(r@ =~= word_mkdir());
    r
}

fn word_rmdir_bytes() -> (r: [u8; 5])
    ensures
        r@ == word_rmdir(),
{
    let r = ['r' as u8, 'm' as u8, 'd' as u8, 'i' as u8, 'r' as u8];
    assert(r@ =~= word_rmdir());
    r
}

fn word_echo_space_bytes() -> (r: [u8; 5])
    ensures
        r@ == word_echo().push(SPACE),
{
    let r = ['e' as u8, 'c' as u8, 'h' as u8, 'o' as u8, ' ' as u8];
    assert(r@ =~= word_echo().push(SPACE));
    r
}

fn word_ls_space_bytes() -> (r: [u8; 3])
    ensures
        r@ == word_ls().push(SPACE),
{
    let r = ['l' as u8, 's' as u8, ' ' as u8];
    assert(r@ =~= word_ls().push(SPACE));
    r
}

fn word_cat_space_bytes() -> (r: [u8; 4])
    ensures
        r@ == word_cat().push(SPACE),
{
    let r = ['c' as u8, 'a' as u8, 't' as u8, ' ' as u8];
    assert(r@ =~= word_cat().push(SPACE));
    r
}

fn word_rm_space_bytes() -> (r: [u8; 3])
    ensures
        r@ == word_rm().push(SPACE),
{
    let r = ['r' as u8, 'm' as u8, ' ' as u8];
    assert(r@ =~= word_rm().push(SPACE));
    r
}

fn word_mkdir_space_bytes() -> (r: [u8; 6])
    ensures
        r@ == word_mkdir().push(SPACE),
{
    let r = ['m' as u8, 'k' as u8, 'd' as u8, 'i' as u8, 'r' as u8, ' ' as u8];
    assert(r@ =~= word_mkdir().push(SPACE));
    r
}

fn word_rmdir_space_bytes() -> (r: [u8; 6])
    ensures
        r@ == word_rmdir().push(SPACE),
{
    let r = ['r' as u8, 'm' as u8, 'd' as u8, 'i' as u8, 'r' as u8, ' ' as u8];
    assert(r@ =~= word_rmdir().push(SPACE));
    r
}

fn is_space_byte(b: u8) -> (r: bool)
    ensures
        r == is_ascii_space(b),
{
    b == 0x20 || b == 0x09 || b == 0x0a || b == 0x0c || b == 0x0d
}

/// The argument that follows position `k` of the line `text`, whose bytes are `t`.
fn argument<'a>(text: &'a str, t: &[u8], k: usize) -> (r: &'a str)
    requires
        t@ == text.spec_bytes(),
        0 < k <= t@.len(),
        t@[k - 1] == SPACE,
    ensures
        r.spec_bytes() == argument_at(t@, k as int),
{
    let mut j = k;
    while j < t.len() && t[j] == SPACE
        invariant
            k <= j <= t@.len(),
            t@[j - 1] == SPACE,
            spaces_end(t@, k as int) == spaces_end(t@, j as int),
        decreases t@.len() - j,
    {
        j = j + 1;
    }
    substring(text, j, t.len())
}

/// Reads one command line; the words are matched after dropping leading and
/// trailing ASCII whitespace.
pub fn parse_command(input: &str) -> (r: Command<'_>)
    ensures
        r@ == command_of(trimmed(input.spec_bytes())),
{
    let b = input.as_bytes();
    let mut s: usize = 0;
    while s < b.len() && is_space_byte(b[s])
        invariant
            b@ == input.spec_bytes(),
            s <= b@.len(),
            s == 0 || is_ascii_space(b@[s - 1]),
            trim_start(b@, 0) == trim_start(b@, s as int),
        decreases b@.len() - s,
    {
        s = s + 1;
    }
    let mut e: usize = b.len();
    while e > s && is_space_byte(b[e - 1])
        invariant
            b@ == input.spec_bytes(),
            s <= e <= b@.len(),
            e == b@.len() || is_ascii_space(b@[e as int]),
            trim_end(b@, s as int, b@.len() as int) == trim_end(b@, s as int, e as int),
        decreases e - s,
    {
        e = e - 1;
    }
    let text = substring(input, s, e);
    let t = text.as_bytes();
    proof {
        assert(t@ == trimmed(b@));
    }
    let n = t.len();
    if n == 0 {
        return Command::Empty;
    }
    proof {
        assert(t@.subrange(0, n as int) =~= t@);
    }
    let none = substring(text, n, n);
    assert(none.spec_bytes() =~= Seq::<u8>::empty());
    if range_eq(t, 0, n, word_help_bytes().as_slice()) {
        return Command::Help;
    }
    if range_eq(t, 0, n, word_info_bytes().as_slice()) {
        return Command::Info;
    }
    if range_eq(t, 0, n, word_uptime_bytes().as_slice()) {
        return Command::Uptime;
    }
    if range_eq(t, 0, n, word_memory_bytes().as_slice()) {
        return Command::Memory;
    }
    if range_eq(t, 0, n, word_clear_bytes().as_slice()) {
        return Command::Clear;
    }
    if range_eq(t, 0, n, word_shutdown_bytes().as_slice()) {
        return Command::Shutdown;
    }
    if range_eq(t, 0, n, word_echo_bytes().as_slice()) {
        return Command::Echo(none);
    }
    if range_has_prefix(t, 0, n, word_echo_space_bytes().as_slice()) {
        assert(t@[4] == word_echo().push(SPACE)[4]);
        return Command::Echo(argument(text, t, 5));
    }
    if range_eq(t, 0, n, word_ls_bytes().as_slice()) {
        return Command::Ls(none);
    }
    if range_eq(t, 0, n, word_cat_bytes().as_slice()) {
        return Command::Cat(none);
    }
    if range_eq(t, 0, n, word_rm_bytes().as_slice()) {
        return Command::Rm(none);
    }
    if range_has_prefix(t, 0, n, word_rm_space_bytes().as_slice()) {
        assert(t@[2] == word_rm().push(SPACE)[2]);
        return Command::Rm(argument(text, t, 3));
    }
    if range_eq(t, 0, n, word_mkdir_bytes().as_slice()) {
        return Command::Mkdir(none);
    }
    if range_has_prefix(t, 0, n, word_mkdir_space_bytes().as_slice()) {
        assert(t@[5] == word_mkdir().push(SPACE)[5]);
        return Command::Mkdir(argument(text, t, 6));
    }
    if range_eq(t, 0, n, word_rmdir_bytes().as_slice()) {
        return Command::Rmdir(none);
    }
    if range_has_prefix(t, 0, n, word_rmdir_space_bytes().as_slice()) {
        assert(t@[5] == word_rmdir().push(SPACE)[5]);
        return Command::Rmdir(argument(text, t, 6));
    }
    if range_has_prefix(t, 0, n, word_ls_space_bytes().as_slice()) {
        assert(t@[2] == word_ls().push(SPACE)[2]);
        return Command::Ls(argument(text, t, 3));
    }
    if range_has_prefix(t, 0, n, word_cat_space_bytes().as_slice()) {
        assert(t@[3] == word_cat().push(SPACE)[3]);
        return Command::Cat(argument(text, t, 4));
    }
    Command::Unknown(text)
}

/// `n` spaces.
pub open spec fn spaces(n: nat) -> Seq<u8> {
    Seq::new(n, |i: int| SPACE)
}

/// The argument a command carries, if it takes one.
pub open spec fn argument_of(c: CommandView) -> Option<Seq<u8>> {
    match c {
        CommandView::Echo(a) => Some(a),
        CommandView::Ls(a) => Some(a),
        CommandView::Cat(a) => Some(a),
        CommandView::Rm(a) => Some(a),
        CommandView::Mkdir(a) => Some(a),
        CommandView::Rmdir(a) => Some(a),
        _ => None,
    }
}

proof fn lemma_spaces_end(t: Seq<u8>, i: int)
    requires
        0 <= i <= t.len(),
    ensures
        i <= spaces_end(t, i) <= t.len(),
        spaces_end(t, i) < t.len() ==> t[spaces_end(t, i)] != SPACE,
        forall|j: int| i <= j < spaces_end(t, i) ==> t[j] == SPACE,
    decreases t.len() - i,
{
    if i < t.len() && t[i] == SPACE {
        lemma_spaces_end(t, i + 1);
    }
}

/// The argument of a command is the tail of the line after the command word
/// and the spaces that follow it: it never starts with a space, the line
/// ends with it, and only spaces stand between the word and it.
pub proof fn lemma_argument_skips_spaces(t: Seq<u8>)
    ensures
        argument_of(command_of(t)) matches Some(a) ==> {
            &&& a.len() == 0 || a[0] != SPACE
            &&& a.len() <= t.len()
            &&& t.subrange(t.len() - a.len(), t.len() as int) == a
            &&& t.len() - a.len() >= 2
            &&& forall|j: int| 6 <= j < t.len() - a.len() ==> t[j] == SPACE
        },
{
    if t.len() == 0 || t == word_help() || t == word_info() || t == word_uptime() || t
        == word_memory() || t == word_clear() || t == word_shutdown() || t == word_echo() {
        assert(t.subrange(t.len() as int, t.len() as int) =~= Seq::<u8>::empty());
    } else if has_prefix(t, word_echo().push(SPACE)) {
        lemma_prefix_at(t, word_echo().push(SPACE), 4);
        lemma_argument_tail(t, 5);
    } else if t == word_ls() || t == word_cat() || t == word_rm() {
        assert(t.subrange(t.len() as int, t.len() as int) =~= Seq::<u8>::empty());
    } else if has_prefix(t, word_rm().push(SPACE)) {
        lemma_prefix_at(t, word_rm().push(SPACE), 2);
        lemma_argument_tail(t, 3);
    } else if t == word_mkdir() {
        assert(t.subrange(t.len() as int, t.len() as int) =~= Seq::<u8>::empty());
    } else if has_prefix(t, word_mkdir().push(SPACE)) {
        lemma_prefix_at(t, word_mkdir().push(SPACE), 5);
        lemma_argument_tail(t, 6);
    } else if t == word_rmdir() {
        assert(t.subrange(t.len() as int, t.len() as int) =~= Seq::<u8>::empty());
    } else if has_prefix(t, word_rmdir().push(SPACE)) {
        lemma_prefix_at(t, word_rmdir().push(SPACE), 5);
        lemma_argument_tail(t, 6);
    } else if has_prefix(t, word_ls().push(SPACE)) {
        lemma_prefix_at(t, word_ls().push(SPACE), 2);
        lemma_argument_tail(t, 3);
    } else if has_prefix(t, word_cat().push(SPACE)) {
        lemma_prefix_at(t, word_cat().push(SPACE), 3);
        lemma_argument_tail(t, 4);
    }
}

proof fn lemma_argument_tail(t: Seq<u8>, k: int)
    requires
        3 <= k <= t.len(),
        t[k - 1] == SPACE,
    ensures
        ({
            let a = argument_at(t, k);
            &&& a.len() == 0 || a[0] != SPACE
            &&& a.len() <= t.len()
            &&& t.subrange(t.len() - a.len(), t.len() as int) == a
            &&& t.len() - a.len() >= 2
            &&& forall|j: int| k <= j < t.len() - a.len() ==> t[j] == SPACE
        }),
{
    lemma_spaces_end(t, k);
    let a = argument_at(t, k);
    assert(t.subrange(t.len() - a.len(), t.len() as int) =~= a);
}

/// A line that starts with `prefix` holds its bytes at their places.
proof fn lemma_prefix_at(t: Seq<u8>, prefix: Seq<u8>, i: int)
    requires
        has_prefix(t, prefix),
        0 <= i < prefix.len(),
    ensures
        t[i] == prefix[i],
{
    assert(t.subrange(0, prefix.len() as int)[i] == t[i]);
}

/// `cat`, one or more spaces, and a name that does not start with a space
/// asks for exactly that name.
pub proof fn lemma_cat_takes_the_name(k: nat, name: Seq<u8>)
    requires
        k >= 1,
        name.len() == 0 || name[0] != SPACE,
    ensures
        command_of(word_cat() + spaces(k) + name) == CommandView::Cat(name),
{
    let t = word_cat() + spaces(k) + name;
    assert(t.len() > 3);
    assert(t[0] == 'c' as u8 && t[3] == SPACE);
    assert(t.subrange(0, 4) =~= word_cat().push(SPACE));
    assert(t != word_help() && t != word_info() && t != word_uptime() && t != word_memory());
    assert(t != word_clear() && t != word_shutdown() && t != word_echo() && t != word_ls());
    assert(t != word_cat() && t != word_rm() && t != word_mkdir() && t != word_rmdir());
    if has_prefix(t, word_echo().push(SPACE)) {
        lemma_prefix_at(t, word_echo().push(SPACE), 0);
    }
    if has_prefix(t, word_rm().push(SPACE)) {
        lemma_prefix_at(t, word_rm().push(SPACE), 0);
    }
    if has_prefix(t, word_mkdir().push(SPACE)) {
        lemma_prefix_at(t, word_mkdir().push(SPACE), 0);
    }
    if has_prefix(t, word_rmdir().push(SPACE)) {
        lemma_prefix_at(t, word_rmdir().push(SPACE), 0);
    }
    if has_prefix(t, word_ls().push(SPACE)) {
        lemma_prefix_at(t, word_ls().push(SPACE), 0);
    }
    lemma_spaces_end(t, 4);
    let e = spaces_end(t, 4);
    assert forall|j: int| 4 <= j < 3 + k implies t[j] == SPACE by {}
    if e < 3 + k {
        assert(t[e] == SPACE);
    }
    if e > 3 + k {
        assert(t[3 + k as int] == SPACE);
        assert(t[3 + k as int] == name[0]);
    }
    assert(e == 3 + k);
    assert(t.subrange(e, t.len() as int) =~= name);
}

} // verus!
