//! The state of each path at the last sync, and the text file that holds it.
//!
//! The file has one line for each path and side:
//! `<side> <mtime_ns> <size> <checksum> <path>`, with the checksum in
//! hexadecimal or `-`, and the path in double quotes where it holds a space
//! or a double quote. Lines that start with `#` and lines that cannot be
//! read are passed over.

use crate::bisync::text::{
    append_hex, digit_text,
    find, first_index, trim, trimmed,
    digits, parse_hex_u64, parse_i64, parse_u64, push_hex_u64, push_i64, push_u64, signed_digits,
    signed_text, unsigned_text,
};
use crate::buffer::string_from_utf8;
use crate::wire::utf8_text;
use std::collections::hash_map::DefaultHasher;
use std::hash::Hasher;
use vstd::prelude::*;
use vstd::std_specs::hash::DefaultHasherAdditionalSpecFns;
use vstd::slice::{slice_subrange, slice_to_vec};
use vstd::string::StringExecFns;
use vstd::utf8::encode_utf8;

verus! {

/// The byte of a space.
pub const SPACE: u8 = 0x20;

/// The byte of a double quote.
pub const QUOTE: u8 = 0x22;

/// The byte of a hash sign, which starts a comment.
pub const HASH: u8 = 0x23;

/// The byte of a backslash.
pub const BACKSLASH: u8 = 0x5c;

/// The byte of a dash, which stands for no checksum.
pub const DASH: u8 = 0x2d;

/// The byte that ends a line.
pub const NEWLINE: u8 = 0x0a;

/// Which side of the sync a state is of.
#[derive(Debug, Clone, Copy, PartialEq, Eq, Structural)]
pub enum Side {
    Source,
    Dest,
}

impl Side {
    /// The word for the side in the state file.
    pub open spec fn word(self) -> Seq<u8> {
        match self {
            Side::Source => seq![0x73u8, 0x6f, 0x75, 0x72, 0x63, 0x65],
            Side::Dest => seq![0x64u8, 0x65, 0x73, 0x74],
        }
    }

    /// The side that a word of the state file stands for.
    pub open spec fn of_word(word: Seq<u8>) -> Option<Side> {
        if word == Side::Source.word() {
            Some(Side::Source)
        } else if word == Side::Dest.word() {
            Some(Side::Dest)
        } else {
            None
        }
    }

    /// The word for the side: `source` or `dest`.
    pub fn as_str(&self) -> (r: &'static str)
        ensures
            encode_utf8(r@) == self.word(),
    {
        proof {
            reveal_strlit("source");
            reveal_strlit("dest");
            vstd::utf8::is_ascii_chars_encode_utf8("source"@);
            vstd::utf8::is_ascii_chars_encode_utf8("dest"@);
            assert(encode_utf8("source"@) =~= Side::Source.word());
            assert(encode_utf8("dest"@) =~= Side::Dest.word());
        }
        match self {
            Side::Source => "source",
            Side::Dest => "dest",
        }
    }

    /// The side that a word stands for.
    pub fn from_str(s: &str) -> (r: Option<Side>)
        ensures
            r == Self::of_word(encode_utf8(s@)),
    {
        Self::from_word(s.as_bytes())
    }

    /// The side that a word stands for.
    pub fn from_word(word: &[u8]) -> (r: Option<Side>)
        ensures
            r == Self::of_word(word@),
    {
        if word.len() == 6 && word[0] == 0x73 && word[1] == 0x6f && word[2] == 0x75 && word[3]
            == 0x72 && word[4] == 0x63 && word[5] == 0x65 {
            assert(word@ =~= Side::Source.word());
            Some(Side::Source)
        } else if word.len() == 4 && word[0] == 0x64 && word[1] == 0x65 && word[2] == 0x73
            && word[3] == 0x74 {
            assert(word@ =~= Side::Dest.word());
            Some(Side::Dest)
        } else {
            proof {
                let s = Side::Source.word();
                let d = Side::Dest.word();
                if word@ == s {
                    assert(word@.len() == 6 && word@[0] == s[0] && word@[1] == s[1] && word@[2]
                        == s[2] && word@[3] == s[3] && word@[4] == s[4] && word@[5] == s[5]);
                }
                if word@ == d {
                    assert(word@.len() == 4 && word@[0] == d[0] && word@[1] == d[1] && word@[2]
                        == d[2] && word@[3] == d[3]);
                }
            }
            None
        }
    }
}

/// The state of one path on one side at the last sync.
#[derive(Debug, PartialEq, Eq)]
pub struct SyncState {
    pub path: String,
    pub side: Side,
    /// The modification time, in nanoseconds since the Unix epoch.
    pub mtime: i64,
    pub size: u64,
    pub checksum: Option<u64>,
    /// The time of the sync, in nanoseconds since the Unix epoch.
    pub last_sync: i64,
}

/// A `SyncState` as a mathematical value.
pub ghost struct StateView {
    pub path: Seq<char>,
    pub side: Side,
    pub mtime: i64,
    pub size: u64,
    pub checksum: Option<u64>,
    pub last_sync: i64,
}

impl View for SyncState {
    type V = StateView;

    open spec fn view(&self) -> StateView {
        StateView {
            path: self.path@,
            side: self.side,
            mtime: self.mtime,
            size: self.size,
            checksum: self.checksum,
            last_sync: self.last_sync,
        }
    }
}

impl Clone for SyncState {
    fn clone(&self) -> (r: SyncState)
        ensures
            r@ == self@,
    {
        SyncState {
            path: self.path.clone(),
            side: self.side,
            mtime: self.mtime,
            size: self.size,
            checksum: self.checksum,
            last_sync: self.last_sync,
        }
    }
}

/// The view of an optional state.
pub open spec fn optional_state(state: Option<SyncState>) -> Option<StateView> {
    match state {
        Some(s) => Some(s@),
        None => None,
    }
}

/// A path with a backslash put in front of each double quote.
pub open spec fn escaped(path: Seq<u8>) -> Seq<u8>
    decreases path.len(),
{
    if path.len() == 0 {
        Seq::empty()
    } else if path.last() == QUOTE {
        escaped(path.drop_last()) + seq![BACKSLASH, QUOTE]
    } else {
        escaped(path.drop_last()).push(path.last())
    }
}

/// A path as the state file holds it: in double quotes, and escaped, where
/// it holds a space or a double quote.
pub open spec fn path_text(path: Seq<u8>) -> Seq<u8> {
    if path.contains(SPACE) || path.contains(QUOTE) {
        seq![QUOTE] + escaped(path) + seq![QUOTE]
    } else {
        path
    }
}

/// A checksum as the state file holds it: in hexadecimal, or `-`.
pub open spec fn checksum_text(checksum: Option<u64>) -> Seq<u8> {
    match checksum {
        Some(c) => digits(c as nat, 16),
        None => seq![DASH],
    }
}

/// The line of a state, with the newline that ends it.
pub open spec fn state_line(state: StateView) -> Seq<u8> {
    state.side.word() + seq![SPACE] + signed_digits(state.mtime as int) + seq![SPACE] + digits(
        state.size as nat,
        10,
    ) + seq![SPACE] + checksum_text(state.checksum) + seq![SPACE] + path_text(
        encode_utf8(state.path),
    ) + seq![NEWLINE]
}

/// Appends the line of a state.
pub fn write_state(out: &mut Vec<u8>, state: &SyncState)
    ensures
        final(out)@ == old(out)@ + state_line(state@),
{
    let ghost start = out@;
    out.extend_from_slice(state.side.as_str().as_bytes());
    out.push(SPACE);
    push_i64(out, state.mtime);
    out.push(SPACE);
    push_u64(out, state.size);
    out.push(SPACE);
    match state.checksum {
        Some(c) => {
            push_hex_u64(out, c);
        },
        None => {
            out.push(DASH);
        },
    }
    out.push(SPACE);
    let ghost head = out@;
    assert(head =~= start + state.side.word() + seq![SPACE] + signed_digits(state.mtime as int)
        + seq![SPACE] + digits(state.size as nat, 10) + seq![SPACE] + checksum_text(
        state.checksum,
    ) + seq![SPACE]);
    let path = state.path.as_str().as_bytes();
    let mut quoted = false;
    let mut i: usize = 0;
    while i < path.len() && !quoted
        invariant
            i <= path.len(),
            quoted ==> path@.contains(SPACE) || path@.contains(QUOTE),
            !quoted ==> forall|j: int| 0 <= j < i ==> path[j] != SPACE && path[j] != QUOTE,
        decreases path.len() - i + if quoted { 0int } else { 1int },
    {
        if path[i] == SPACE || path[i] == QUOTE {
            assert(path@[i as int] == path[i as int]);
            quoted = true;
        } else {
            i = i + 1;
        }
    }
    if quoted {
        out.push(QUOTE);
        let ghost open = out@;
        let mut k: usize = 0;
        assert(path@.take(0) =~= Seq::<u8>::empty());
        assert(out@ =~= open + escaped(path@.take(0)));
        while k < path.len()
            invariant
                k <= path.len(),
                out@ == open + escaped(path@.take(k as int)),
            decreases path.len() - k,
        {
            proof {
                assert(path@.take(k + 1).drop_last() =~= path@.take(k as int));
            }
            let ghost before = out@;
            if path[k] == QUOTE {
                out.push(BACKSLASH);
                out.push(QUOTE);
                assert(out@ =~= before + seq![BACKSLASH, QUOTE]);
            } else {
                out.push(path[k]);
            }
            assert(out@ =~= open + escaped(path@.take(k + 1)));
            k = k + 1;
        }
        assert(path@.take(k as int) =~= path@);
        out.push(QUOTE);
        assert(out@ =~= head + path_text(path@));
    } else {
        out.extend_from_slice(path);
        assert(!path@.contains(SPACE) && !path@.contains(QUOTE));
    }
    out.push(NEWLINE);
    assert(out@ =~= start + state_line(state@));
}

/// A line cut at its first space: what is in front of it, and what is
/// behind; `None` where the line has no space.
pub open spec fn cut(s: Seq<u8>) -> Option<(Seq<u8>, Seq<u8>)> {
    let n = first_index(s, SPACE);
    if 0 <= n < s.len() {
        Some((s.take(n), s.skip(n + 1)))
    } else {
        None
    }
}

/// A path without the double quotes around it, if it has them. What is
/// between them is taken as it is.
pub open spec fn unquoted(p: Seq<u8>) -> Seq<u8> {
    if p.len() >= 2 && p[0] == QUOTE && p.last() == QUOTE {
        p.subrange(1, p.len() - 1)
    } else {
        p
    }
}

/// The number of a field; zero where the field is no number.
pub open spec fn number_or_zero(n: Option<int>) -> int {
    match n {
        Some(n) => n,
        None => 0,
    }
}

/// The checksum that a field holds: none for `-` and for what is no
/// hexadecimal number.
pub open spec fn checksum_of(field: Seq<u8>) -> Option<u64> {
    if field == seq![DASH] {
        None
    } else {
        match unsigned_text(field, 16, u64::MAX as nat) {
            Some(c) => Some(c as u64),
            None => None,
        }
    }
}

/// The state that the five fields of a line make, if the first is a side
/// and the last is text. The time of the sync is taken to be the
/// modification time.
pub open spec fn state_of(
    side: Seq<u8>,
    mtime: Seq<u8>,
    size: Seq<u8>,
    checksum: Seq<u8>,
    path: Seq<u8>,
) -> Option<StateView> {
    match (Side::of_word(side), utf8_text(unquoted(path))) {
        (Some(side), Some(path)) => Some(
            StateView {
                path,
                side,
                mtime: number_or_zero(signed_text(mtime)) as i64,
                size: number_or_zero(
                    match unsigned_text(size, 10, u64::MAX as nat) {
                        Some(n) => Some(n as int),
                        None => None,
                    },
                ) as u64,
                checksum: checksum_of(checksum),
                last_sync: number_or_zero(signed_text(mtime)) as i64,
            },
        ),
        _ => None,
    }
}

/// The state that a line of the state file holds, if it holds one: the
/// line without the blanks around it must not be empty, nor start with
/// `#`, and must have five fields with single spaces between them, of
/// which the fifth may hold spaces itself.
pub open spec fn parsed_line(line: Seq<u8>) -> Option<StateView> {
    let t = trimmed(line);
    if t.len() == 0 || t[0] == HASH {
        None
    } else {
        match cut(t) {
            None => None,
            Some((side, r1)) => match cut(r1) {
                None => None,
                Some((mtime, r2)) => match cut(r2) {
                    None => None,
                    Some((size, r3)) => match cut(r3) {
                        None => None,
                        Some((checksum, path)) => state_of(side, mtime, size, checksum, path),
                    },
                },
            },
        }
    }
}

/// Cuts a line at its first space.
fn cut_field(s: &[u8]) -> (r: Option<(&[u8], &[u8])>)
    ensures
        match r {
            Some((field, rest)) => cut(s@) == Some((field@, rest@)),
            None => cut(s@) is None,
        },
{
    let n = find(s, SPACE);
    if n < s.len() {
        let field = slice_subrange(s, 0, n);
        let rest = slice_subrange(s, n + 1, s.len());
        assert(field@ =~= s@.take(n as int));
        assert(rest@ =~= s@.skip(n + 1));
        Some((field, rest))
    } else {
        None
    }
}

/// Reads one line of the state file.
pub fn parse_line(line: &[u8]) -> (r: Option<SyncState>)
    ensures
        optional_state(r) == parsed_line(line@),
{
    let t = trim(line);
    if t.len() == 0 || t[0] == HASH {
        return None;
    }
    let (side_word, r1) = match cut_field(t) {
        Some(x) => x,
        None => {
            return None;
        },
    };
    let (mtime_text, r2) = match cut_field(r1) {
        Some(x) => x,
        None => {
            return None;
        },
    };
    let (size_text, r3) = match cut_field(r2) {
        Some(x) => x,
        None => {
            return None;
        },
    };
    let (checksum_field, path_part) = match cut_field(r3) {
        Some(x) => x,
        None => {
            return None;
        },
    };
    let side = match Side::from_word(side_word) {
        Some(side) => side,
        None => {
            return None;
        },
    };
    let mtime = match parse_i64(mtime_text) {
        Some(n) => n,
        None => 0,
    };
    let size = match parse_u64(size_text) {
        Some(n) => n,
        None => 0,
    };
    let checksum = if checksum_field.len() == 1 && checksum_field[0] == DASH {
        assert(checksum_field@ =~= seq![DASH]);
        None
    } else {
        proof {
            if checksum_field@ == seq![DASH] {
                assert(checksum_field@.len() == 1 && checksum_field@[0] == DASH);
            }
        }
        parse_hex_u64(checksum_field)
    };
    let n = path_part.len();
    let bare = if n >= 2 && path_part[0] == QUOTE && path_part[n - 1] == QUOTE {
        slice_subrange(path_part, 1, n - 1)
    } else {
        path_part
    };
    assert(bare@ =~= unquoted(path_part@));
    let path = match string_from_utf8(slice_to_vec(bare)) {
        Some(path) => path,
        None => {
            return None;
        },
    };
    proof {
        vstd::utf8::encode_utf8_decode_utf8(path@);
    }
    Some(SyncState { path, side, mtime, size, checksum, last_sync: mtime })
}

/// What is remembered of one path: its state on each side.
#[derive(Debug, PartialEq, Eq)]
pub struct PathStates {
    pub path: String,
    pub source: Option<SyncState>,
    pub dest: Option<SyncState>,
}

/// A `PathStates` as a mathematical value.
pub ghost struct PathStatesView {
    pub path: Seq<char>,
    pub source: Option<StateView>,
    pub dest: Option<StateView>,
}

impl View for PathStates {
    type V = PathStatesView;

    open spec fn view(&self) -> PathStatesView {
        PathStatesView {
            path: self.path@,
            source: optional_state(self.source),
            dest: optional_state(self.dest),
        }
    }
}

impl Clone for PathStates {
    fn clone(&self) -> (r: PathStates)
        ensures
            r@ == self@,
    {
        PathStates {
            path: self.path.clone(),
            source: match &self.source {
                Some(s) => Some(s.clone()),
                None => None,
            },
            dest: match &self.dest {
                Some(s) => Some(s.clone()),
                None => None,
            },
        }
    }
}

/// The views of a list of entries.
pub open spec fn entry_views(entries: Seq<PathStates>) -> Seq<PathStatesView> {
    entries.map_values(|e: PathStates| e@)
}

/// Where the entry of `path` stands in a list; the length of the list
/// where it has none.
pub open spec fn index_of(list: Seq<PathStatesView>, path: Seq<char>) -> int
    decreases list.len(),
{
    if list.len() == 0 || list[0].path == path {
        0
    } else {
        1 + index_of(list.skip(1), path)
    }
}

/// An entry with the state put in for its side.
pub open spec fn with_state(entry: PathStatesView, state: StateView) -> PathStatesView {
    match state.side {
        Side::Source => PathStatesView { source: Some(state), ..entry },
        Side::Dest => PathStatesView { dest: Some(state), ..entry },
    }
}

/// A list with a state put in: into the entry of its path, or into a new
/// entry behind the others.
pub open spec fn put(list: Seq<PathStatesView>, state: StateView) -> Seq<PathStatesView> {
    let i = index_of(list, state.path);
    if 0 <= i < list.len() {
        list.update(i, with_state(list[i], state))
    } else {
        list.push(
            with_state(PathStatesView { path: state.path, source: None, dest: None }, state),
        )
    }
}

/// A list without the entry of `path`.
pub open spec fn without(list: Seq<PathStatesView>, path: Seq<char>) -> Seq<PathStatesView> {
    let i = index_of(list, path);
    if 0 <= i < list.len() {
        list.remove(i)
    } else {
        list
    }
}

/// The state of `path` on `side`, if the list holds one.
pub open spec fn lookup(list: Seq<PathStatesView>, path: Seq<char>, side: Side) -> Option<
    StateView,
> {
    let i = index_of(list, path);
    if 0 <= i < list.len() {
        match side {
            Side::Source => list[i].source,
            Side::Dest => list[i].dest,
        }
    } else {
        None
    }
}

/// The states that the lines of a state file add to a list, line after
/// line.
pub open spec fn loaded(content: Seq<u8>, list: Seq<PathStatesView>) -> Seq<PathStatesView>
    decreases content.len(),
{
    let n = first_index(content, NEWLINE);
    let next = match parsed_line(content.take(n)) {
        Some(state) => put(list, state),
        None => list,
    };
    if 0 <= n < content.len() {
        loaded(content.skip(n + 1), next)
    } else {
        next
    }
}

/// The lines of a list of entries: for each entry its source state, then
/// its dest state, where it has them.
pub open spec fn entry_lines(list: Seq<PathStatesView>) -> Seq<u8>
    decreases list.len(),
{
    if list.len() == 0 {
        Seq::empty()
    } else {
        entry_lines(list.drop_last()) + match list.last().source {
            Some(s) => state_line(s),
            None => Seq::empty(),
        } + match list.last().dest {
            Some(s) => state_line(s),
            None => Seq::empty(),
        }
    }
}

/// Where the position of a path is found by looking: no entry before `n`
/// has the path, and `n` is the end or has it.
proof fn lemma_index_of(list: Seq<PathStatesView>, path: Seq<char>, n: int)
    requires
        0 <= n <= list.len(),
        forall|j: int| 0 <= j < n ==> list[j].path != path,
        n == list.len() || list[n].path == path,
    ensures
        index_of(list, path) == n,
    decreases n,
{
    if n > 0 {
        lemma_index_of(list.skip(1), path, n - 1);
    }
}

/// The states of the last sync of a source with a destination.
pub struct BisyncStateDb {
    source_path: String,
    dest_path: String,
    states: Vec<PathStates>,
}

impl View for BisyncStateDb {
    type V = Seq<PathStatesView>;

    closed spec fn view(&self) -> Seq<PathStatesView> {
        entry_views(self.states@)
    }
}

impl BisyncStateDb {
    /// The version of the file format.
    pub const FORMAT_VERSION: &'static str = "v1";

    /// The source of the pair.
    pub closed spec fn source(&self) -> Seq<char> {
        self.source_path@
    }

    /// The destination of the pair.
    pub closed spec fn dest(&self) -> Seq<char> {
        self.dest_path@
    }

    /// The number that tells one pair of source and destination from
    /// another: the standard hash of the two paths, each followed by a byte
    /// of all ones.
    pub open spec fn pair_hash(source: Seq<char>, dest: Seq<char>) -> u64 {
        DefaultHasher::spec_finish(
            seq![encode_utf8(source), seq![0xffu8], encode_utf8(dest), seq![0xffu8]],
        )
    }

    /// The hash of a pair, in hexadecimal.
    pub fn generate_sync_pair_hash(source: &str, dest: &str) -> (r: String)
        ensures
            r@ == digit_text(Self::pair_hash(source@, dest@) as nat, 16),
    {
        let mark: [u8; 1] = [0xff];
        let mut hasher = DefaultHasher::new();
        hasher.write(source.as_bytes());
        hasher.write(mark.as_slice());
        hasher.write(dest.as_bytes());
        hasher.write(mark.as_slice());
        assert(mark@ =~= seq![0xffu8]);
        assert(hasher@ =~= seq![
            encode_utf8(source@),
            seq![0xffu8],
            encode_utf8(dest@),
            seq![0xffu8],
        ]);
        let mut r = String::new();
        append_hex(&mut r, hasher.finish());
        assert(r@ =~= digit_text(Self::pair_hash(source@, dest@) as nat, 16));
        r
    }

    /// The states of a pair: those of its state file, if there is one.
    pub fn open(source: &str, dest: &str, stored: Option<&[u8]>) -> (db: BisyncStateDb)
        ensures
            db.source() == source@,
            db.dest() == dest@,
            db@ == match stored {
                Some(content) => loaded(content@, Seq::empty()),
                None => Seq::empty(),
            },
    {
        let states = match stored {
            Some(content) => Self::load_from_file(content),
            None => Vec::new(),
        };
        assert(stored is None ==> entry_views(states@) =~= Seq::<PathStatesView>::empty());
        BisyncStateDb {
            source_path: source.to_owned(),
            dest_path: dest.to_owned(),
            states,
        }
    }

    /// Where the entry of `path` stands.
    fn position(states: &Vec<PathStates>, path: &str) -> (n: usize)
        ensures
            n == index_of(entry_views(states@), path@),
            n <= states.len(),
    {
        let key = path.to_owned();
        let mut n: usize = 0;
        while n < states.len() && !states[n].path.eq(&key)
            invariant
                n <= states.len(),
                key@ == path@,
                forall|j: int| 0 <= j < n ==> states[j].path@ != path@,
            decreases states.len() - n,
        {
            n = n + 1;
        }
        proof {
            let list = entry_views(states@);
            assert forall|j: int| 0 <= j < n implies list[j].path != path@ by {
                assert(list[j] == states[j]@);
            }
            if n < states.len() {
                assert(list[n as int] == states[n as int]@);
            }
            lemma_index_of(list, path@, n as int);
        }
        n
    }

    /// Puts a state into a list of entries.
    fn put_state(states: &mut Vec<PathStates>, state: SyncState)
        ensures
            entry_views(final(states)@) == put(entry_views(old(states)@), state@),
    {
        let ghost before = entry_views(states@);
        let n = Self::position(states, state.path.as_str());
        if n < states.len() {
            let old_entry = states.remove(n);
            assert(before[n as int] == old_entry@);
            let entry = match state.side {
                Side::Source => PathStates {
                    path: old_entry.path,
                    source: Some(state),
                    dest: old_entry.dest,
                },
                Side::Dest => PathStates {
                    path: old_entry.path,
                    source: old_entry.source,
                    dest: Some(state),
                },
            };
            states.insert(n, entry);
            assert(entry_views(states@) =~= put(before, state@));
        } else {
            let path = state.path.clone();
            let entry = match state.side {
                Side::Source => PathStates { path, source: Some(state), dest: None },
                Side::Dest => PathStates { path, source: None, dest: Some(state) },
            };
            states.push(entry);
            assert(entry_views(states@) =~= put(before, state@));
        }
    }

    /// Reads the states of a state file.
    pub fn load_from_file(content: &[u8]) -> (states: Vec<PathStates>)
        ensures
            entry_views(states@) == loaded(content@, Seq::empty()),
    {
        let mut states: Vec<PathStates> = Vec::new();
        let mut pos: usize = 0;
        let mut finished = false;
        assert(content@.skip(0) =~= content@);
        assert(entry_views(states@) =~= Seq::<PathStatesView>::empty());
        while !finished
            invariant
                pos <= content.len(),
                !finished ==> loaded(content@, Seq::empty()) == loaded(
                    content@.skip(pos as int),
                    entry_views(states@),
                ),
                finished ==> loaded(content@, Seq::empty()) == entry_views(states@),
            decreases content.len() - pos + if finished { 0int } else { 1int },
        {
            let rest = slice_subrange(content, pos, content.len());
            assert(rest@ =~= content@.skip(pos as int));
            let n = find(rest, NEWLINE);
            let line = slice_subrange(rest, 0, n);
            assert(line@ =~= rest@.take(n as int));
            if let Some(state) = parse_line(line) {
                Self::put_state(&mut states, state);
            }
            if n < rest.len() {
                assert(rest@.skip(n + 1) =~= content@.skip(pos + n + 1));
                pos = pos + n + 1;
            } else {
                finished = true;
            }
        }
        states
    }
}

/// The three lines that a state file starts with: the format, the pair,
/// and the time of the sync as the caller writes it.
pub open spec fn header(source: Seq<char>, dest: Seq<char>, now: Seq<char>) -> Seq<u8> {
    encode_utf8("# sy bisync v1"@) + seq![NEWLINE] + encode_utf8("# sync_pair: "@) + encode_utf8(
        source,
    ) + encode_utf8(" <-> "@) + encode_utf8(dest) + seq![NEWLINE] + encode_utf8("# last_sync: "@)
        + encode_utf8(now) + seq![NEWLINE]
}

/// Where the state files are kept: `sy/bisync` under the cache directory,
/// which is `cache` if that is given, and `.cache` under `home` otherwise.
pub open spec fn state_dir_of(cache: Option<Seq<char>>, home: Option<Seq<char>>) -> Option<
    Seq<char>,
> {
    match (cache, home) {
        (Some(cache), _) => Some(cache + "/sy/bisync"@),
        (None, Some(home)) => Some(home + "/.cache/sy/bisync"@),
        (None, None) => None,
    }
}

/// The text of an optional string slice.
pub open spec fn text_of(s: Option<&str>) -> Option<Seq<char>> {
    match s {
        Some(s) => Some(s@),
        None => None,
    }
}

impl BisyncStateDb {
    /// Where the state files are kept, from what the environment says of
    /// the cache directory and of the home directory; `None` where it says
    /// nothing of either.
    pub fn get_state_dir(cache: Option<&str>, home: Option<&str>) -> (r: Option<String>)
        ensures
            match r {
                Some(dir) => state_dir_of(text_of(cache), text_of(home)) == Some(dir@),
                None => state_dir_of(text_of(cache), text_of(home)) is None,
            },
    {
        match (cache, home) {
            (Some(cache), _) => {
                let mut dir = cache.to_owned();
                StringExecFns::append(&mut dir, "/sy/bisync");
                Some(dir)
            },
            (None, Some(home)) => {
                let mut dir = home.to_owned();
                StringExecFns::append(&mut dir, "/.cache/sy/bisync");
                Some(dir)
            },
            (None, None) => None,
        }
    }

    /// Remembers a state: it takes the place of what was remembered of its
    /// path on its side.
    pub fn store(&mut self, state: &SyncState)
        ensures
            final(self)@ == put(old(self)@, state@),
            final(self).source() == old(self).source(),
            final(self).dest() == old(self).dest(),
    {
        Self::put_state(&mut self.states, state.clone());
    }

    /// What is remembered of `path` on `side`.
    pub fn get(&self, path: &str, side: Side) -> (r: Option<SyncState>)
        ensures
            optional_state(r) == lookup(self@, path@, side),
    {
        let n = Self::position(&self.states, path);
        if n < self.states.len() {
            assert(self@[n as int] == self.states[n as int]@);
            let found = match side {
                Side::Source => &self.states[n].source,
                Side::Dest => &self.states[n].dest,
            };
            match found {
                Some(s) => Some(s.clone()),
                None => None,
            }
        } else {
            None
        }
    }

    /// Everything that is remembered, path by path.
    pub fn load_all(&self) -> (r: Vec<PathStates>)
        ensures
            entry_views(r@) == self@,
    {
        let mut r: Vec<PathStates> = Vec::with_capacity(self.states.len());
        let mut i: usize = 0;
        while i < self.states.len()
            invariant
                i <= self.states.len(),
                r.len() == i,
                forall|j: int| 0 <= j < i ==> r[j]@ == self.states[j]@,
            decreases self.states.len() - i,
        {
            r.push(self.states[i].clone());
            i = i + 1;
        }
        assert(entry_views(r@) =~= entry_views(self.states@));
        r
    }

    /// Forgets both states of `path`.
    pub fn delete(&mut self, path: &str)
        ensures
            final(self)@ == without(old(self)@, path@),
            final(self).source() == old(self).source(),
            final(self).dest() == old(self).dest(),
    {
        let ghost before = self@;
        let n = Self::position(&self.states, path);
        if n < self.states.len() {
            self.states.remove(n);
            assert(self@ =~= before.remove(n as int));
        }
    }

    /// Forgets everything.
    pub fn clear_all(&mut self)
        ensures
            final(self)@ == Seq::<PathStatesView>::empty(),
            final(self).source() == old(self).source(),
            final(self).dest() == old(self).dest(),
    {
        self.states.clear();
        assert(self@ =~= Seq::<PathStatesView>::empty());
    }

    /// Forgets the paths that the last `keep_syncs` syncs did not see.
    /// Nothing is forgotten as yet: the states do not say which sync saw
    /// them.
    pub fn prune_stale(&mut self, keep_syncs: usize) -> (pruned: usize)
        ensures
            pruned == 0,
            final(self)@ == old(self)@,
            final(self).source() == old(self).source(),
            final(self).dest() == old(self).dest(),
    {
        0
    }

    /// The hash of the pair, in hexadecimal.
    pub fn sync_pair_hash(&self) -> (r: String)
        ensures
            r@ == digit_text(Self::pair_hash(self.source(), self.dest()) as nat, 16),
    {
        Self::generate_sync_pair_hash(self.source_path.as_str(), self.dest_path.as_str())
    }

    /// The state file as it is to be written: the header, with `now` as the
    /// time of the sync, and the lines of the entries in the order in which
    /// their paths were first remembered.
    pub fn save_to_file(&self, now: &str) -> (content: Vec<u8>)
        ensures
            content@ == header(self.source(), self.dest(), now@) + entry_lines(self@),
    {
        let mut out: Vec<u8> = Vec::new();
        out.extend_from_slice("# sy bisync v1".as_bytes());
        out.push(NEWLINE);
        out.extend_from_slice("# sync_pair: ".as_bytes());
        out.extend_from_slice(self.source_path.as_str().as_bytes());
        out.extend_from_slice(" <-> ".as_bytes());
        out.extend_from_slice(self.dest_path.as_str().as_bytes());
        out.push(NEWLINE);
        out.extend_from_slice("# last_sync: ".as_bytes());
        out.extend_from_slice(now.as_bytes());
        out.push(NEWLINE);
        let ghost head = out@;
        assert(head =~= header(self.source(), self.dest(), now@));
        let mut i: usize = 0;
        assert(self@.take(0) =~= Seq::<PathStatesView>::empty());
        assert(out@ =~= head + entry_lines(self@.take(0)));
        while i < self.states.len()
            invariant
                i <= self.states.len(),
                out@ == head + entry_lines(self@.take(i as int)),
            decreases self.states.len() - i,
        {
            let ghost before = out@;
            proof {
                assert(self@.take(i + 1).drop_last() =~= self@.take(i as int));
                assert(self@.take(i + 1).last() == self.states[i as int]@);
            }
            if let Some(state) = &self.states[i].source {
                write_state(&mut out, state);
            }
            let ghost middle = out@;
            assert(middle =~= before + match self.states[i as int]@.source {
                Some(s) => state_line(s),
                None => Seq::<u8>::empty(),
            });
            if let Some(state) = &self.states[i].dest {
                write_state(&mut out, state);
            }
            assert(out@ =~= middle + match self.states[i as int]@.dest {
                Some(s) => state_line(s),
                None => Seq::<u8>::empty(),
            });
            assert(out@ =~= head + entry_lines(self@.take(i + 1)));
            i = i + 1;
        }
        assert(self@.take(i as int) =~= self@);
        out
    }
}

/// What is remembered of a path on a side is the state that was stored
/// last for them.
pub proof fn lemma_store_then_get(list: Seq<PathStatesView>, state: StateView)
    ensures
        lookup(put(list, state), state.path, state.side) == Some(state),
{
    let i = index_of(list, state.path);
    lemma_index_bounds(list, state.path);
    let after = put(list, state);
    if i < list.len() {
        assert forall|j: int| 0 <= j < i implies after[j].path != state.path by {
            lemma_before_index(list, state.path, j);
        }
        lemma_index_of(after, state.path, i);
    } else {
        assert forall|j: int| 0 <= j < list.len() implies after[j].path != state.path by {
            lemma_before_index(list, state.path, j);
        }
        lemma_index_of(after, state.path, list.len() as int);
    }
}

/// The position of a path lies within the list or at its end, and the
/// entry there, if any, has the path.
pub proof fn lemma_index_bounds(list: Seq<PathStatesView>, path: Seq<char>)
    ensures
        0 <= index_of(list, path) <= list.len(),
        index_of(list, path) < list.len() ==> list[index_of(list, path)].path == path,
    decreases list.len(),
{
    if list.len() > 0 && list[0].path != path {
        lemma_index_bounds(list.skip(1), path);
    }
}

/// No entry in front of the position of a path has the path.
pub proof fn lemma_before_index(list: Seq<PathStatesView>, path: Seq<char>, j: int)
    requires
        0 <= j < index_of(list, path),
    ensures
        j < list.len(),
        list[j].path != path,
    decreases list.len(),
{
    lemma_index_bounds(list, path);
    if j > 0 {
        lemma_before_index(list.skip(1), path, j - 1);
    }
}

/// Whether no two entries of a list have the same path.
pub open spec fn distinct_paths(list: Seq<PathStatesView>) -> bool {
    forall|i: int, j: int| 0 <= i < j < list.len() ==> list[i].path != list[j].path
}

/// Storing and forgetting keep the paths of the entries distinct, and
/// nothing is remembered of a path that was forgotten.
pub proof fn lemma_delete_then_get(list: Seq<PathStatesView>, state: StateView, side: Side)
    requires
        distinct_paths(list),
    ensures
        distinct_paths(put(list, state)),
        distinct_paths(without(list, state.path)),
        lookup(without(list, state.path), state.path, side) is None,
{
    let path = state.path;
    let i = index_of(list, path);
    lemma_index_bounds(list, path);
    let gone = without(list, path);
    assert forall|j: int| 0 <= j < gone.len() implies gone[j].path != path by {
        if i < list.len() {
            if j < i {
                lemma_before_index(list, path, j);
            } else {
                assert(gone[j] == list[j + 1]);
            }
        } else {
            lemma_before_index(list, path, j);
        }
    }
    lemma_index_of(gone, path, gone.len() as int);
    let more = put(list, state);
    assert forall|a: int, b: int| 0 <= a < b < more.len() implies more[a].path != more[b].path by {
        if i < list.len() {
            assert(more[a].path == list[a].path);
            assert(more[b].path == list[b].path);
        } else if b == list.len() {
            lemma_before_index(list, path, a);
        }
    }
}

} // verus!
