//! Tree objects: their entries, their stored form, and how it is parsed.
use crate::error::{ErrorKind, GitError, Outcome};
use crate::objects::numbers::{
    decimal, parse_unsigned, parse_unsigned_bytes, push_decimal, zero_padded, zero_padded_decimal,
};
use crate::objects::object::{object_type_name, ObjectType};
use crate::objects::text::{first_index, find_byte, is_first_index, join_path, lemma_first_index_unique, path_join};
use crate::objects::utils::{
    ascii_chars, bytes_to_string, hex_decode, hex_encode, is_hex_text, string_to_bytes, utf8_string,
};
use vstd::prelude::*;
use vstd::slice::{slice_subrange, slice_to_vec};
use vstd::string::*;
use vstd::utf8::*;

verus! {


/// A tree: the entries of one directory.
pub struct Tree {
    pub entries: Vec<TreeEntry>,
}

/// One entry of a tree: a file or directory, its mode, its name and the hash
/// of the object it points to. `size` is the number of bytes the entry takes
/// in the stored tree.
#[derive(Clone, Debug)]
pub struct TreeEntry {
    pub mode: u32,
    pub filename: String,
    pub hash: String,
    pub size: usize,
}

/// The mathematical model of a [`TreeEntry`].
pub struct EntryView {
    pub mode: u32,
    pub filename: Seq<char>,
    pub hash: Seq<char>,
    pub size: usize,
}

impl View for TreeEntry {
    type V = EntryView;

    open spec fn view(&self) -> EntryView {
        EntryView { mode: self.mode, filename: self.filename@, hash: self.hash@, size: self.size }
    }
}

/// The models of a sequence of entries.
pub open spec fn entry_views(entries: Seq<TreeEntry>) -> Seq<EntryView> {
    entries.map_values(|e: TreeEntry| e@)
}

impl View for Tree {
    type V = Seq<EntryView>;

    open spec fn view(&self) -> Seq<EntryView> {
        entry_views(self.entries@)
    }
}

/// Reads the entries of a stored tree.
pub struct TreeParser {
    /// The bytes to parse.
    bytes: Vec<u8>,
    /// optional path prefix to prepend to each entry's filename.
    path_prefix: Option<String>,
}

/// The kind of file system object that a tree entry's mode stands for.
#[derive(Copy, Clone, PartialEq, Eq, Structural, Debug)]
pub enum Mode {
    RegularFile,
    ExecutableFile,
    Directory,
    SymLink,
    GitLink,
}

/// The kind that a mode number stands for, if any.
pub open spec fn mode_of(mode: u32) -> Option<Mode> {
    if mode == 100644 {
        Some(Mode::RegularFile)
    } else if mode == 100755 {
        Some(Mode::ExecutableFile)
    } else if mode == 40000 {
        Some(Mode::Directory)
    } else if mode == 120000 {
        Some(Mode::SymLink)
    } else if mode == 160000 {
        Some(Mode::GitLink)
    } else {
        None
    }
}

/// The type of object that an entry of the given kind points to.
pub open spec fn mode_object_type(m: Mode) -> ObjectType {
    match m {
        Mode::RegularFile | Mode::ExecutableFile | Mode::SymLink => ObjectType::Blob,
        Mode::Directory => ObjectType::Tree,
        Mode::GitLink => ObjectType::Commit,
    }
}

impl Mode {
    /// The kind that a mode number stands for; other numbers are an error.
    pub fn from_u32(mode: u32) -> (res: Result<Self, GitError>)
        ensures
            match mode_of(mode) {
                Some(m) => res == Ok::<Mode, GitError>(m),
                None => res matches Err(e) && e@ == ErrorKind::UnknownMode(mode),
            },
    {
        match mode {
            100644 => Ok(Mode::RegularFile),
            100755 => Ok(Mode::ExecutableFile),
            40000 => Ok(Mode::Directory),
            120000 => Ok(Mode::SymLink),
            160000 => Ok(Mode::GitLink),
            _ => Err(GitError::UnknownMode(mode)),
        }
    }

    /// The type of object that an entry of this kind points to.
    pub fn object_type(&self) -> (res: ObjectType)
        ensures
            res == mode_object_type(*self),
    {
        match self {
            Mode::RegularFile | Mode::ExecutableFile | Mode::SymLink => ObjectType::Blob,
            Mode::Directory => ObjectType::Tree,
            Mode::GitLink => ObjectType::Commit,
        }
    }
}

/// The stored form of one entry: `{mode} {filename}\0` followed by the 20
/// bytes that the hexadecimal hash stands for.
pub open spec fn entry_bytes(e: EntryView) -> Seq<u8> {
    decimal(e.mode as nat) + seq![32u8] + encode_utf8(e.filename) + seq![0u8] + hex_decode(
        encode_utf8(e.hash),
    )
}

/// The stored form of a tree: its entries' stored forms one after another.
pub open spec fn tree_bytes(es: Seq<EntryView>) -> Seq<u8>
    decreases es.len(),
{
    if es.len() == 0 {
        Seq::empty()
    } else {
        tree_bytes(es.drop_last()) + entry_bytes(es.last())
    }
}

/// The hash of every entry is hexadecimal text.
pub open spec fn hashes_are_hex(es: Seq<EntryView>) -> bool {
    forall|i: int| 0 <= i < es.len() ==> is_hex_text(#[trigger] encode_utf8(es[i].hash))
}

/// The mode of every entry names a kind of entry.
pub open spec fn modes_are_known(es: Seq<EntryView>) -> bool {
    forall|i: int| 0 <= i < es.len() ==> (#[trigger] mode_of(es[i].mode)) is Some
}

/// An entry as a listing shows it (its `Display`):
/// `{mode:06} {type} {hash}\t{filename}`.
pub open spec fn entry_line(e: EntryView) -> Seq<u8> {
    zero_padded(decimal(e.mode as nat), 6) + seq![32u8] + object_type_name(
        mode_object_type(mode_of(e.mode)->0),
    ) + seq![32u8] + encode_utf8(e.hash) + seq![9u8] + encode_utf8(e.filename)
}

impl Tree {
    /// Outputs the byte representation of the tree. Suitable for converting to a format that is
    /// stored in the object store.
    pub fn to_bytes(&self) -> (res: Vec<u8>)
        requires
            hashes_are_hex(self@),
        ensures
            res@ == tree_bytes(self@),
    {
        let mut result: Vec<u8> = Vec::new();
        let n = self.entries.len();
        for i in 0..n
            invariant
                n == self.entries@.len(),
                hashes_are_hex(self@),
                result@ == tree_bytes(self@.take(i as int)),
        {
            let entry = &self.entries[i];
            assert(self@[i as int] == entry@);
            assert(is_hex_text(encode_utf8(self@[i as int].hash)));
            push_decimal(&mut result, entry.mode as u64);
            result.push(32);
            result.extend_from_slice(entry.filename.as_str().as_bytes());
            result.push(0);
            let hash_bytes = string_to_bytes(entry.hash.as_str());
            result.extend_from_slice(hash_bytes.as_slice());
            assert(self@.take(i + 1).drop_last() =~= self@.take(i as int));
            assert(result@ =~= tree_bytes(self@.take(i + 1)));
        }
        assert(self@.take(n as int) =~= self@);
        result
    }
}

impl TreeEntry {
    /// The type of object this entry points to.
    pub fn object_type(&self) -> (res: ObjectType)
        requires
            mode_of(self.mode) is Some,
        ensures
            res == mode_object_type(mode_of(self.mode)->0),
    {
        match Mode::from_u32(self.mode) {
            Ok(m) => m.object_type(),
            Err(_) => {
                assert(false);
                ObjectType::Blob
            },
        }
    }

    /// The entry's mode names a kind of entry.
    pub fn mode_is_known(&self) -> (res: bool)
        ensures
            res == (mode_of(self.mode) is Some),
    {
        Mode::from_u32(self.mode).is_ok()
    }

    /// The entry as a listing shows it (what `Display` writes); `None` where
    /// the mode names no kind of entry (where writing it would panic).
    pub fn display_checked(&self) -> (res: Option<String>)
        ensures
            match res {
                Some(s) => mode_of(self.mode) is Some && encode_utf8(s@) == entry_line(self@),
                None => mode_of(self.mode) is None,
            },
    {
        if self.mode_is_known() {
            Some(self.display())
        } else {
            None
        }
    }

    /// The entry as a listing shows it (what `Display` writes), as bytes.
    pub fn line_bytes(&self) -> (res: Vec<u8>)
        requires
            mode_of(self.mode) is Some,
        ensures
            res@ == entry_line(self@),
    {
        let mut out = zero_padded_decimal(self.mode as u64, 6);
        out.push(32);
        let name = self.object_type().name_bytes();
        out.extend_from_slice(name.as_slice());
        out.push(32);
        out.extend_from_slice(self.hash.as_str().as_bytes());
        out.push(9);
        out.extend_from_slice(self.filename.as_str().as_bytes());
        assert(out@ =~= entry_line(self@));
        out
    }

    /// The entry as a listing shows it (what `Display` writes):
    /// `{mode:06} {type} {hash}\t{filename}`.
    pub fn display(&self) -> (res: String)
        requires
            mode_of(self.mode) is Some,
        ensures
            encode_utf8(res@) == entry_line(self@),
    {
        let bytes = self.line_bytes();
        proof {
            lemma_entry_line_utf8(self@);
        }
        match utf8_string(bytes) {
            Some(s) => s,
            None => {
                assert(false);
                String::new()
            },
        }
    }

    /// A copy of the entry.
    pub fn duplicate(&self) -> (res: TreeEntry)
        ensures
            res@ == self@,
    {
        TreeEntry {
            mode: self.mode,
            filename: self.filename.clone(),
            hash: self.hash.clone(),
            size: self.size,
        }
    }
}

/// A listing line is valid UTF-8.
pub proof fn lemma_entry_line_utf8(e: EntryView)
    requires
        mode_of(e.mode) is Some,
    ensures
        valid_utf8(entry_line(e)),
{
    broadcast use vstd::utf8::group_utf8_lib;

    let head = zero_padded(decimal(e.mode as nat), 6) + seq![32u8] + object_type_name(
        mode_object_type(mode_of(e.mode)->0),
    ) + seq![32u8];
    let digits = zero_padded(decimal(e.mode as nat), 6);
    crate::objects::numbers::lemma_decimal_digits(e.mode as nat);
    crate::objects::numbers::lemma_zero_padded_ascii(decimal(e.mode as nat), 6);
    let name = object_type_name(mode_object_type(mode_of(e.mode)->0));
    assert(crate::objects::utils::is_ascii_bytes(head)) by {
        assert forall|i: int| 0 <= i < head.len() implies #[trigger] head[i] < 128 by {
            if i < digits.len() {
                assert(crate::objects::numbers::is_digit(digits[i]));
            } else if digits.len() + 1 <= i < digits.len() + 1 + name.len() {
                assert(head[i] == name[i - digits.len() - 1]);
            }
        }
    }
    let chars = crate::objects::utils::ascii_chars(head);
    crate::objects::utils::lemma_ascii_chars_encode(head);
    let tab = crate::objects::utils::ascii_chars(seq![9u8]);
    crate::objects::utils::lemma_ascii_chars_encode(seq![9u8]);
    let all = chars + e.hash + tab + e.filename;
    crate::objects::utils::lemma_encode_utf8_concat(chars, e.hash);
    crate::objects::utils::lemma_encode_utf8_concat(chars + e.hash, tab);
    crate::objects::utils::lemma_encode_utf8_concat(chars + e.hash + tab, e.filename);
    assert(encode_utf8(all) =~= entry_line(e));
}

/// A filename, with the prefix joined in front when there is one.
pub open spec fn expanded(prefix: Option<Seq<char>>, name: Seq<char>) -> Seq<char> {
    match prefix {
        Some(p) => path_join(p, name),
        None => name,
    }
}

/// What parsing one entry at the front of `b` comes to, with the entry and
/// the number of bytes it takes. In order: the first NUL and the first space
/// must exist and the mode text must be UTF-8 (else a panic); the mode must
/// read as a `u32` (else an error); the space must come before the NUL
/// (else a panic); the filename must be UTF-8 (else an error); 20 bytes of
/// hash must follow the NUL (else a panic).
pub open spec fn entry_outcome(b: Seq<u8>, prefix: Option<Seq<char>>) -> Outcome<(EntryView, nat)> {
    match (first_index(b, 0), first_index(b, 32)) {
        (Some(nul), Some(sp)) => if !valid_utf8(b.take(sp)) {
            Outcome::Panics
        } else {
            match parse_unsigned(b.take(sp), u32::MAX as nat) {
                Err(k) => Outcome::Fails(ErrorKind::InvalidMode(k)),
                Ok(mode) => if sp > nul {
                    Outcome::Panics
                } else if !valid_utf8(b.subrange(sp + 1, nul)) {
                    Outcome::Fails(ErrorKind::InvalidFilename)
                } else if nul + 21 > b.len() {
                    Outcome::Panics
                } else {
                    Outcome::Done(
                        (
                            EntryView {
                                mode: mode as u32,
                                filename: expanded(prefix, decode_utf8(b.subrange(sp + 1, nul))),
                                hash: ascii_chars(hex_encode(b.subrange(nul + 1, nul + 21))),
                                size: (nul + 21) as usize,
                            },
                            (nul + 21) as nat,
                        ),
                    )
                },
            }
        },
        _ => Outcome::Panics,
    }
}

/// `es` in front of the entries of an outcome; panics and errors stay as they are.
pub open spec fn prepend(es: Seq<EntryView>, o: Outcome<Seq<EntryView>>) -> Outcome<Seq<EntryView>> {
    match o {
        Outcome::Done(rest) => Outcome::Done(es + rest),
        _ => o,
    }
}

/// What parsing all of `b` as tree entries comes to: entry after entry until
/// the bytes run out; the first panic or error ends it.
pub open spec fn entries_outcome(b: Seq<u8>, prefix: Option<Seq<char>>) -> Outcome<
    Seq<EntryView>,
>
    decreases b.len(),
{
    if b.len() == 0 {
        Outcome::Done(Seq::empty())
    } else {
        match entry_outcome(b, prefix) {
            Outcome::Done((e, n)) => if 0 < n <= b.len() {
                prepend(seq![e], entries_outcome(b.skip(n as int), prefix))
            } else {
                Outcome::Panics
            },
            Outcome::Fails(k) => Outcome::Fails(k),
            Outcome::Panics => Outcome::Panics,
        }
    }
}

/// A parsed entry always takes between 21 bytes and all of the input.
pub proof fn lemma_entry_length(b: Seq<u8>, prefix: Option<Seq<char>>)
    ensures
        entry_outcome(b, prefix) matches Outcome::Done((e, n)) ==> 21 <= n <= b.len(),
        b.len() <= usize::MAX ==> (entry_outcome(b, prefix) matches Outcome::Done((e, n))
            ==> e.size == n),
{
}

/// A `Result` of the library agrees with an outcome that is not a panic.
pub open spec fn entries_result(res: Result<Vec<TreeEntry>, GitError>, o: Outcome<Seq<EntryView>>) -> bool {
    match o {
        Outcome::Done(es) => res matches Ok(v) && entry_views(v@) == es,
        Outcome::Fails(k) => res matches Err(e) && e@ == k,
        Outcome::Panics => false,
    }
}

/// `s` is valid UTF-8.
fn is_utf8(s: &[u8]) -> (res: bool)
    ensures
        res == valid_utf8(s@),
{
    utf8_string(slice_to_vec(s)).is_some()
}

impl TreeParser {
    /// The bytes to parse.
    pub closed spec fn input(&self) -> Seq<u8> {
        self.bytes@
    }

    /// The prefix for filenames, if any.
    pub closed spec fn prefix(&self) -> Option<Seq<char>> {
        match self.path_prefix {
            Some(p) => Some(p@),
            None => None,
        }
    }

    /// Creates a new TreeParser
    ///
    /// # Arguments
    /// * `bytes` - The raw bytes to parse
    /// * `path_prefix` - If provided, prefixes all filenames with this path
    pub fn new(bytes: &[u8], path_prefix: Option<String>) -> (res: Self)
        ensures
            res.input() == bytes@,
            res.prefix() == (match path_prefix {
                Some(p) => Some(p@),
                None => None::<Seq<char>>,
            }),
    {
        TreeParser { bytes: slice_to_vec(bytes), path_prefix }
    }

    /// Parses the bytes into a vector of tree entries.
    pub fn parse(&self) -> (res: Result<Vec<TreeEntry>, GitError>)
        requires
            !(entries_outcome(self.input(), self.prefix()) is Panics),
        ensures
            entries_result(res, entries_outcome(self.input(), self.prefix())),
    {
        match self.parse_checked() {
            Some(r) => r,
            None => {
                assert(false);
                Ok(Vec::new())
            },
        }
    }

    /// Parses the bytes into a vector of tree entries; `None` where the
    /// parse would panic.
    pub fn parse_checked(&self) -> (res: Option<Result<Vec<TreeEntry>, GitError>>)
        ensures
            match res {
                None => entries_outcome(self.input(), self.prefix()) is Panics,
                Some(r) => entries_result(r, entries_outcome(self.input(), self.prefix())),
            },
    {
        let n = self.bytes.len();
        let mut offset: usize = 0;
        let mut entries: Vec<TreeEntry> = Vec::new();
        let ghost all = self.input();
        let ghost prefix = self.prefix();
        assert(all.skip(0) =~= all);
        assert(prepend(Seq::empty(), entries_outcome(all, prefix)) == entries_outcome(all, prefix)) by {
            if let Outcome::Done(rest) = entries_outcome(all, prefix) {
                assert(Seq::<EntryView>::empty() + rest =~= rest);
            }
        }
        while offset < n
            invariant
                all == self.input(),
                prefix == self.prefix(),
                n == all.len(),
                offset <= n,
                entries_outcome(all, prefix) == prepend(
                    entry_views(entries@),
                    entries_outcome(all.skip(offset as int), prefix),
                ),
            decreases n - offset,
        {
            let ghost b = all.skip(offset as int);
            proof {
                lemma_entry_length(b, prefix);
            }
            match self.parse_one(offset) {
                None => {
                    return None;
                },
                Some(Err(e)) => {
                    return Some(Err(e));
                },
                Some(Ok((entry, used))) => {
                    let ghost old_views = entry_views(entries@);
                    entries.push(entry);
                    offset = offset + used;
                    proof {
                        assert(b.skip(used as int) =~= all.skip(offset as int));
                        assert(entry_views(entries@) =~= old_views + seq![entry@]);
                        match entries_outcome(all.skip(offset as int), prefix) {
                            Outcome::Done(rest) => {
                                assert(old_views + (seq![entry@] + rest) =~= entry_views(
                                    entries@,
                                ) + rest);
                            },
                            _ => {},
                        }
                    }
                },
            }
        }
        assert(all.skip(offset as int).len() == 0);
        assert(entry_views(entries@) + Seq::<EntryView>::empty() =~= entry_views(entries@));
        Some(Ok(entries))
    }

    /// Parses a single tree entry starting at `start`.
    /// Returns the parsed entry and the number of bytes it takes; `None`
    /// where the parse would panic.
    fn parse_one(&self, start: usize) -> (res: Option<Result<(TreeEntry, usize), GitError>>)
        requires
            start < self.input().len(),
        ensures
            match entry_outcome(self.input().skip(start as int), self.prefix()) {
                Outcome::Panics => res is None,
                Outcome::Fails(k) => res matches Some(Err(e)) && e@ == k,
                Outcome::Done((ev, n)) => res matches Some(Ok((entry, used))) && entry@ == ev
                    && used == n,
            },
    {
        let bytes = self.bytes.as_slice();
        let ghost b = self.input().skip(start as int);
        let n = bytes.len();
        let nul = match find_byte(bytes, start, 0) {
            Some(i) => i,
            None => {
                return None;
            },
        };
        let sp = match find_byte(bytes, start, 32) {
            Some(i) => i,
            None => {
                return None;
            },
        };
        let mode_text = slice_subrange(bytes, start, start + sp);
        assert(mode_text@ =~= b.take(sp as int));
        if !is_utf8(mode_text) {
            return None;
        }
        let mode = match parse_unsigned_bytes(mode_text, 4294967295u64) {
            Ok(m) => m,
            Err(k) => {
                return Some(Err(GitError::InvalidMode(k)));
            },
        };
        if sp > nul {
            return None;
        }
        let name_bytes = slice_subrange(bytes, start + sp + 1, start + nul);
        assert(name_bytes@ =~= b.subrange(sp + 1, nul as int));
        let filename = match utf8_string(slice_to_vec(name_bytes)) {
            Some(s) => s,
            None => {
                return Some(Err(GitError::InvalidFilename));
            },
        };
        if n - start - nul < 21 {
            return None;
        }
        let hash_bytes = slice_subrange(bytes, start + nul + 1, start + nul + 21);
        assert(hash_bytes@ =~= b.subrange(nul + 1, nul + 21));
        let hash = bytes_to_string(hash_bytes);
        let expanded_filename = self.expand_filename(filename.as_str());
        let size = nul + 21;
        Some(Ok((TreeEntry { mode: mode as u32, hash, size, filename: expanded_filename }, size)))
    }

    /// Prefixes the entry with path_prefix, if path_prefix is not None.
    fn expand_filename(&self, filename: &str) -> (res: String)
        ensures
            res@ == expanded(self.prefix(), filename@),
    {
        match &self.path_prefix {
            Some(path_prefix) => join_path(path_prefix.as_str(), filename),
            None => filename.to_owned(),
        }
    }
}

/// A hash as git writes it: 40 lowercase hexadecimal digits.
pub open spec fn is_object_hash(h: Seq<char>) -> bool {
    h.len() == 40 && forall|i: int|
        0 <= i < h.len() ==> ('0' <= #[trigger] h[i] <= '9') || ('a' <= h[i] <= 'f')
}

/// An entry whose stored form reads back: its hash is an object hash and
/// its filename holds no NUL byte.
pub open spec fn entry_readable(e: EntryView) -> bool {
    &&& is_object_hash(e.hash)
    &&& forall|i: int|
        0 <= i < encode_utf8(e.filename).len() ==> #[trigger] encode_utf8(e.filename)[i] != 0
}

/// An entry as its stored form reads back: the same mode, filename and
/// hash, and as size the length of the stored form (the stored form holds no
/// size: `{mode} {filename}\0` and the 20 hash bytes).
pub open spec fn read_back(e: EntryView) -> EntryView {
    EntryView { mode: e.mode, filename: e.filename, hash: e.hash, size: entry_bytes(e).len() as usize }
}

/// An entry that its stored form describes exactly: it reads back, and its
/// size is the length of its stored form.
pub open spec fn entry_storable(e: EntryView) -> bool {
    &&& entry_readable(e)
    &&& e.size == entry_bytes(e).len()
}

/// The bytes of an object hash, and what they stand for.
proof fn lemma_object_hash_bytes(h: Seq<char>)
    requires
        is_object_hash(h),
    ensures
        encode_utf8(h).len() == 40,
        is_hex_text(encode_utf8(h)),
        hex_decode(encode_utf8(h)).len() == 20,
        ascii_chars(hex_encode(hex_decode(encode_utf8(h)))) == h,
{
    broadcast use vstd::utf8::group_utf8_lib;

    assert(is_ascii_chars(h)) by {
        assert forall|i: int| 0 <= i < h.len() implies '\0' <= #[trigger] h[i] <= '\u{7f}' by {
            assert(('0' <= h[i] <= '9') || ('a' <= h[i] <= 'f'));
        }
    }
    let hb = encode_utf8(h);
    assert forall|i: int| 0 <= i < hb.len() implies #[trigger] crate::objects::utils::is_lower_hex_digit(
        hb[i],
    ) by {
        assert(h[i] as u8 == hb[i]);
        assert(('0' <= h[i] <= '9') || ('a' <= h[i] <= 'f'));
    }
    crate::objects::utils::law_hex_text_roundtrip(hb);
    assert forall|i: int| 0 <= i < h.len() implies #[trigger] ascii_chars(hb)[i] == h[i] by {
        assert(h[i] as u8 == hb[i]);
        assert(('0' <= h[i] <= '9') || ('a' <= h[i] <= 'f'));
    }
    assert(ascii_chars(hb) =~= h);
}

/// The stored form of a tree starts with the stored form of its first entry.
proof fn lemma_tree_bytes_front(es: Seq<EntryView>)
    requires
        es.len() > 0,
    ensures
        tree_bytes(es) == entry_bytes(es[0]) + tree_bytes(es.drop_first()),
    decreases es.len(),
{
    if es.len() == 1 {
        assert(es.drop_last() =~= Seq::<EntryView>::empty());
        assert(es.drop_first() =~= Seq::<EntryView>::empty());
        assert(tree_bytes(es) =~= entry_bytes(es[0]) + tree_bytes(es.drop_first()));
    } else {
        lemma_tree_bytes_front(es.drop_last());
        assert(es.drop_last().drop_first() =~= es.drop_first().drop_last());
        assert(es.drop_first().last() == es.last());
        assert(tree_bytes(es) =~= entry_bytes(es[0]) + tree_bytes(es.drop_first()));
    }
}

/// Parsing the stored form of a storable entry, followed by anything, gives
/// the entry back and takes exactly its stored form.
proof fn lemma_entry_roundtrip(e: EntryView, rest: Seq<u8>)
    requires
        entry_readable(e),
    ensures
        entry_outcome(entry_bytes(e) + rest, None) == Outcome::Done(
            (read_back(e), entry_bytes(e).len()),
        ),
{
    broadcast use vstd::utf8::group_utf8_lib;

    let d = decimal(e.mode as nat);
    let f = encode_utf8(e.filename);
    let h = hex_decode(encode_utf8(e.hash));
    let eb = entry_bytes(e);
    let b = eb + rest;
    crate::objects::numbers::lemma_decimal_digits(e.mode as nat);
    lemma_object_hash_bytes(e.hash);
    let sp = d.len() as int;
    let nul = (d.len() + 1 + f.len()) as int;
    assert(eb =~= d + seq![32u8] + f + seq![0u8] + h);
    assert forall|j: int| 0 <= j < nul implies b[j] != 0 by {
        if j < sp {
            assert(crate::objects::numbers::is_digit(d[j]));
        } else if j > sp {
            assert(b[j] == f[j - sp - 1]);
        }
    }
    assert(b[nul] == 0);
    assert(is_first_index(b, 0, nul));
    lemma_first_index_unique(b, 0, nul);
    assert forall|j: int| 0 <= j < sp implies b[j] != 32 by {
        assert(crate::objects::numbers::is_digit(d[j]));
    }
    assert(is_first_index(b, 32, sp));
    lemma_first_index_unique(b, 32, sp);
    assert(b.take(sp) =~= d);
    assert(crate::objects::utils::is_ascii_bytes(d)) by {
        assert forall|i: int| 0 <= i < d.len() implies #[trigger] d[i] < 128 by {
            assert(crate::objects::numbers::is_digit(d[i]));
        }
    }
    crate::objects::utils::lemma_ascii_chars_encode(d);
    crate::objects::numbers::law_decimal_roundtrip(e.mode as nat, u32::MAX as nat);
    assert(b.subrange(sp + 1, nul) =~= f);
    assert(b.subrange(nul + 1, nul + 21) =~= h);
    assert(eb.len() == nul + 21);
    let parsed = EntryView {
        mode: e.mode,
        filename: expanded(None, decode_utf8(f)),
        hash: ascii_chars(hex_encode(h)),
        size: (nul + 21) as usize,
    };
    assert(parsed == read_back(e));
}

/// Parsing a tree's stored form goes entry by entry.
proof fn lemma_entries_outcome_step(b: Seq<u8>, prefix: Option<Seq<char>>, e: EntryView, n: nat)
    requires
        b.len() > 0,
        entry_outcome(b, prefix) == Outcome::Done((e, n)),
        0 < n <= b.len(),
    ensures
        entries_outcome(b, prefix) == prepend(seq![e], entries_outcome(b.skip(n as int), prefix)),
{
}

/// Reading back the stored form of a tree gives the tree: parsing what
/// `to_bytes` writes yields the entries in order, each with its mode,
/// filename and hash, and with the length of its stored form as size, for
/// every tree whose hashes are object hashes and whose filenames hold no NUL.
pub proof fn law_tree_roundtrip(es: Seq<EntryView>)
    requires
        forall|i: int| 0 <= i < es.len() ==> entry_readable(#[trigger] es[i]),
    ensures
        entries_outcome(tree_bytes(es), None) == Outcome::Done(es.map_values(|e: EntryView| read_back(e))),
    decreases es.len(),
{
    let back = es.map_values(|e: EntryView| read_back(e));
    if es.len() == 0 {
        assert(tree_bytes(es).len() == 0);
        assert(back =~= Seq::<EntryView>::empty());
    } else {
        let e = es[0];
        let rest = es.drop_first();
        assert forall|i: int| 0 <= i < rest.len() implies entry_readable(#[trigger] rest[i]) by {
            assert(rest[i] == es[i + 1]);
        }
        law_tree_roundtrip(rest);
        lemma_tree_bytes_front(es);
        lemma_entry_roundtrip(e, tree_bytes(rest));
        let b = tree_bytes(es);
        let n = entry_bytes(e).len();
        assert(entry_bytes(e).len() > 0);
        assert(b.skip(n as int) =~= tree_bytes(rest));
        lemma_entries_outcome_step(b, None, read_back(e), n);
        assert(seq![read_back(e)] + rest.map_values(|e: EntryView| read_back(e)) =~= back);
    }
}

/// Reading back the stored form of a tree whose entries are storable gives
/// exactly those entries.
pub proof fn law_tree_roundtrip_exact(es: Seq<EntryView>)
    requires
        forall|i: int| 0 <= i < es.len() ==> entry_storable(#[trigger] es[i]),
    ensures
        entries_outcome(tree_bytes(es), None) == Outcome::Done(es),
{
    assert forall|i: int| 0 <= i < es.len() implies entry_readable(#[trigger] es[i]) by {
        assert(entry_storable(es[i]));
    }
    law_tree_roundtrip(es);
    assert forall|i: int| 0 <= i < es.len() implies #[trigger] read_back(es[i]) == es[i] by {
        assert(entry_storable(es[i]));
    }
    assert(es.map_values(|e: EntryView| read_back(e)) =~= es);
}

/// The listing line of an entry names the type its mode stands for: `blob`
/// for modes 100644, 100755 and 120000, `tree` for 40000, `commit` for
/// 160000, between the zero-padded mode and the hash.
pub proof fn law_entry_line_type_word(e: EntryView)
    requires
        mode_of(e.mode) is Some,
    ensures
        entry_line(e) == zero_padded(decimal(e.mode as nat), 6) + seq![32u8] + (if e.mode == 40000 {
            seq![116u8, 114u8, 101u8, 101u8]
        } else if e.mode == 160000 {
            seq![99u8, 111u8, 109u8, 109u8, 105u8, 116u8]
        } else {
            seq![98u8, 108u8, 111u8, 98u8]
        }) + seq![32u8] + encode_utf8(e.hash) + seq![9u8] + encode_utf8(e.filename),
        e.mode == 100644 || e.mode == 100755 || e.mode == 120000 || e.mode == 40000 || e.mode
            == 160000,
{
}

/// An entry with its filename joined onto `p`.
pub open spec fn with_prefix(e: EntryView, p: Seq<char>) -> EntryView {
    EntryView { mode: e.mode, filename: path_join(p, e.filename), hash: e.hash, size: e.size }
}

/// Parsing with a prefix gives the entries parsed without one, every
/// filename joined onto the prefix, whatever the entry's mode; errors and
/// panics come on the same inputs.
pub proof fn law_parse_with_prefix(b: Seq<u8>, p: Seq<char>)
    ensures
        entries_outcome(b, Some(p)) == match entries_outcome(b, None) {
            Outcome::Done(es) => Outcome::Done(es.map_values(|e: EntryView| with_prefix(e, p))),
            Outcome::Fails(k) => Outcome::Fails(k),
            Outcome::Panics => Outcome::Panics,
        },
    decreases b.len(),
{
    if b.len() == 0 {
        assert(Seq::<EntryView>::empty().map_values(|e: EntryView| with_prefix(e, p))
            =~= Seq::<EntryView>::empty());
    } else {
        match entry_outcome(b, None) {
            Outcome::Done((e, n)) => {
                assert(entry_outcome(b, Some(p)) == Outcome::Done((with_prefix(e, p), n)));
                if 0 < n <= b.len() {
                    law_parse_with_prefix(b.skip(n as int), p);
                    match entries_outcome(b.skip(n as int), None) {
                        Outcome::Done(rest) => {
                            assert((seq![e] + rest).map_values(|e: EntryView| with_prefix(e, p))
                                =~= seq![with_prefix(e, p)] + rest.map_values(
                                |e: EntryView| with_prefix(e, p),
                            ));
                        },
                        _ => {},
                    }
                }
            },
            _ => {},
        }
    }
}

} // verus!
