//! Git objects: their types, their headers, and how stored bytes become objects.
use crate::error::{ErrorKind, GitError};
use crate::objects::blob::Blob;
use crate::error::Outcome;
use crate::objects::numbers::{parse_unsigned, parse_unsigned_bytes};
use crate::objects::text::{find_byte, find_char, first_char_index, first_index, trim, trim_str};
use crate::objects::tree::{
    entries_outcome, entry_line, entry_views, modes_are_known, EntryView, Tree, TreeEntry,
    TreeParser,
};
use crate::objects::utils::{ascii_chars, ascii_string, is_ascii_bytes, lemma_ascii_chars_encode, utf8_string};
use vstd::slice::{slice_subrange, slice_to_vec};
use vstd::prelude::*;
use vstd::string::*;
use vstd::utf8::*;

verus! {


/// The type of Git object.
#[derive(Copy, Clone, PartialEq, Eq, Structural, Debug)]
pub enum ObjectType {
    Blob,
    Tree,
    Commit,
}

/// The name of an object type, as it stands in object headers and as
/// `Display` prints it.
pub open spec fn object_type_name(t: ObjectType) -> Seq<u8> {
    match t {
        ObjectType::Blob => seq![98u8, 108u8, 111u8, 98u8],
        ObjectType::Tree => seq![116u8, 114u8, 101u8, 101u8],
        ObjectType::Commit => seq![99u8, 111u8, 109u8, 109u8, 105u8, 116u8],
    }
}

/// The object type that a name stands for, if any (as `FromStr`).
pub open spec fn type_from_name(name: Seq<char>) -> Option<ObjectType> {
    if name == ascii_chars(object_type_name(ObjectType::Blob)) {
        Some(ObjectType::Blob)
    } else if name == ascii_chars(object_type_name(ObjectType::Tree)) {
        Some(ObjectType::Tree)
    } else if name == ascii_chars(object_type_name(ObjectType::Commit)) {
        Some(ObjectType::Commit)
    } else {
        None
    }
}

impl ObjectType {
    /// The name of the type as bytes.
    pub fn name_bytes(&self) -> (res: Vec<u8>)
        ensures
            res@ == object_type_name(*self),
    {
        let res = match self {
            ObjectType::Blob => vec![98u8, 108u8, 111u8, 98u8],
            ObjectType::Tree => vec![116u8, 114u8, 101u8, 101u8],
            ObjectType::Commit => vec![99u8, 111u8, 109u8, 109u8, 105u8, 116u8],
        };
        assert(res@ =~= object_type_name(*self));
        res
    }

    /// The name of the type (what `Display` prints): `blob`, `tree` or `commit`.
    pub fn name(&self) -> (res: String)
        ensures
            res@ == ascii_chars(object_type_name(*self)),
            encode_utf8(res@) == object_type_name(*self),
    {
        let bytes = self.name_bytes();
        ascii_string(bytes)
    }

    /// Reads an object type from its name (what `FromStr` does); any other
    /// text is an unknown type.
    pub fn from_name(s: &str) -> (res: Result<ObjectType, GitError>)
        ensures
            match type_from_name(s@) {
                Some(t) => res == Ok::<ObjectType, GitError>(t),
                None => res matches Err(e) && e@ == ErrorKind::UnknownObjectType(s@),
            },
    {
        let bytes = s.as_bytes();
        proof {
            lemma_name_bytes(s@, ObjectType::Blob);
            lemma_name_bytes(s@, ObjectType::Tree);
            lemma_name_bytes(s@, ObjectType::Commit);
        }
        if bytes_equal(bytes, &ObjectType::Blob.name_bytes()) {
            Ok(ObjectType::Blob)
        } else if bytes_equal(bytes, &ObjectType::Tree.name_bytes()) {
            Ok(ObjectType::Tree)
        } else if bytes_equal(bytes, &ObjectType::Commit.name_bytes()) {
            Ok(ObjectType::Commit)
        } else {
            Err(GitError::UnknownObjectType(s.to_owned()))
        }
    }
}

/// A text equals a type's name exactly when its UTF-8 bytes do.
proof fn lemma_name_bytes(s: Seq<char>, t: ObjectType)
    ensures
        (encode_utf8(s) == object_type_name(t)) <==> (s == ascii_chars(object_type_name(t))),
{
    lemma_ascii_chars_encode(object_type_name(t));
    if encode_utf8(s) == object_type_name(t) {
        encode_utf8_decode_utf8(s);
    }
}

/// Byte strings are equal.
pub fn bytes_equal(a: &[u8], b: &[u8]) -> (res: bool)
    ensures
        res == (a@ == b@),
{
    if a.len() != b.len() {
        return false;
    }
    let mut i: usize = 0;
    while i < a.len()
        invariant
            a@.len() == b@.len(),
            i <= a@.len(),
            forall|j: int| 0 <= j < i ==> a@[j] == b@[j],
        decreases a@.len() - i,
    {
        if a[i] != b[i] {
            return false;
        }
        i = i + 1;
    }
    assert(a@ =~= b@);
    true
}

/// An object loaded from the store.
pub enum Object {
    Blob(Blob),
    Tree(Tree),
}

/// The mathematical model of an [`Object`].
pub enum ObjectView {
    Blob { obj_type: ObjectType, content: Seq<u8>, size: usize },
    Tree { entries: Seq<EntryView> },
}

impl View for Object {
    type V = ObjectView;

    open spec fn view(&self) -> ObjectView {
        match self {
            Object::Blob(b) => ObjectView::Blob {
                obj_type: b.obj_type,
                content: b.content@,
                size: b.size,
            },
            Object::Tree(t) => ObjectView::Tree { entries: t@ },
        }
    }
}

/// The header of a stored object: `{type} {size}\0`.
pub open spec fn object_header(t: ObjectType, size: nat) -> Seq<u8> {
    object_type_name(t) + seq![32u8] + crate::objects::numbers::decimal(size) + seq![0u8]
}

/// What building an object from the bytes of a stored object comes to. The
/// header runs up to the first NUL and must be UTF-8; its type name runs up to
/// the first space and is trimmed; a blob's size is the rest of the header,
/// read as a `usize`; its content is everything after the NUL. A tree's
/// entries are parsed from everything after the NUL (the size is not read).
/// Commits are refused.
pub open spec fn object_outcome(buf: Seq<u8>) -> Outcome<ObjectView> {
    match first_index(buf, 0) {
        None => Outcome::Fails(ErrorKind::NoNullByte),
        Some(nul) => if !valid_utf8(buf.take(nul)) {
            Outcome::Fails(ErrorKind::HeaderNotUtf8)
        } else {
            let h = decode_utf8(buf.take(nul));
            match first_char_index(h, ' ') {
                None => Outcome::Fails(ErrorKind::MalformedHeader),
                Some(sp) => {
                    let raw = trim(h.take(sp));
                    match type_from_name(raw) {
                        None => Outcome::Fails(ErrorKind::UnknownObjectType(raw)),
                        Some(ObjectType::Blob) => match parse_unsigned(
                            encode_utf8(h.skip(sp + 1)),
                            usize::MAX as nat,
                        ) {
                            Err(k) => Outcome::Fails(ErrorKind::InvalidSize(k)),
                            Ok(n) => Outcome::Done(
                                ObjectView::Blob {
                                    obj_type: ObjectType::Blob,
                                    content: buf.skip(nul + 1),
                                    size: n as usize,
                                },
                            ),
                        },
                        Some(ObjectType::Tree) => match entries_outcome(buf.skip(nul + 1), None) {
                            Outcome::Done(es) => Outcome::Done(ObjectView::Tree { entries: es }),
                            Outcome::Fails(k) => Outcome::Fails(k),
                            Outcome::Panics => Outcome::Panics,
                        },
                        Some(ObjectType::Commit) => Outcome::Fails(ErrorKind::CommitUnsupported),
                    }
                },
            }
        },
    }
}

/// A `Result` agrees with an outcome that is not a panic.
pub open spec fn object_result(res: Result<Object, GitError>, o: Outcome<ObjectView>) -> bool {
    match o {
        Outcome::Done(v) => res matches Ok(obj) && obj@ == v,
        Outcome::Fails(k) => res matches Err(e) && e@ == k,
        Outcome::Panics => false,
    }
}

/// The sum of the sizes of the entries.
pub open spec fn entries_size(es: Seq<EntryView>) -> nat
    decreases es.len(),
{
    if es.len() == 0 {
        0
    } else {
        entries_size(es.drop_last()) + es.last().size as nat
    }
}

/// The listing lines of the entries, joined by newlines.
pub open spec fn joined_lines(es: Seq<EntryView>) -> Seq<u8>
    decreases es.len(),
{
    if es.len() == 0 {
        Seq::empty()
    } else if es.len() == 1 {
        entry_line(es[0])
    } else {
        joined_lines(es.drop_last()) + seq![10u8] + entry_line(es.last())
    }
}

/// The size that `cat-file -s` shows: a blob's declared size, or the sum of
/// a tree's entry sizes.
pub open spec fn object_size(o: ObjectView) -> nat {
    match o {
        ObjectView::Blob { size, .. } => size as nat,
        ObjectView::Tree { entries } => entries_size(entries),
    }
}

/// The type of an object.
pub open spec fn object_kind(o: ObjectView) -> ObjectType {
    match o {
        ObjectView::Blob { .. } => ObjectType::Blob,
        ObjectView::Tree { .. } => ObjectType::Tree,
    }
}

/// The content that `cat-file -p` shows: a blob's bytes, or a tree's listing.
pub open spec fn object_content(o: ObjectView) -> Seq<u8> {
    match o {
        ObjectView::Blob { content, .. } => content,
        ObjectView::Tree { entries } => joined_lines(entries),
    }
}

/// The sizes of the object's entries add up within a `usize` (always true of a blob).
pub open spec fn size_fits(o: ObjectView) -> bool {
    match o {
        ObjectView::Blob { .. } => true,
        ObjectView::Tree { entries } => entries_size(entries) <= usize::MAX,
    }
}

/// The modes of the object's entries all name a kind of entry (always true of a blob).
pub open spec fn modes_known(o: ObjectView) -> bool {
    match o {
        ObjectView::Blob { .. } => true,
        ObjectView::Tree { entries } => modes_are_known(entries),
    }
}

impl Object {
    /// Builds an object from the bytes of a stored object (header, NUL, body).
    pub fn build(buf: Vec<u8>) -> (res: Result<Object, GitError>)
        requires
            !(object_outcome(buf@) is Panics),
        ensures
            object_result(res, object_outcome(buf@)),
    {
        match Self::build_checked(buf.as_slice()) {
            Some(r) => r,
            None => {
                assert(false);
                Err(GitError::NoNullByte)
            },
        }
    }

    /// Builds an object from the bytes of a stored object; `None` where
    /// building it would panic.
    pub fn build_checked(buf: &[u8]) -> (res: Option<Result<Object, GitError>>)
        ensures
            match res {
                None => object_outcome(buf@) is Panics,
                Some(r) => object_result(r, object_outcome(buf@)),
            },
    {
        let n = buf.len();
        let nul = match find_byte(buf, 0, 0) {
            Some(i) => i,
            None => {
                assert(buf@.skip(0) =~= buf@);
                return Some(Err(GitError::NoNullByte));
            },
        };
        assert(buf@.skip(0) =~= buf@);
        let head_bytes = slice_subrange(buf, 0, nul);
        assert(head_bytes@ =~= buf@.take(nul as int));
        let header = match utf8_string(slice_to_vec(head_bytes)) {
            Some(h) => h,
            None => {
                return Some(Err(GitError::HeaderNotUtf8));
            },
        };
        let hs = header.as_str();
        let ghost h = decode_utf8(buf@.take(nul as int));
        assert(hs@ == h);
        let sp = match find_char(hs, ' ') {
            Some(k) => k,
            None => {
                return Some(Err(GitError::MalformedHeader));
            },
        };
        let raw = trim_str(hs.substring_char(0, sp));
        assert(hs@.subrange(0, sp as int) =~= hs@.take(sp as int));
        assert(raw@ == trim(h.take(sp as int)));
        let obj_type = match ObjectType::from_name(raw) {
            Ok(t) => t,
            Err(e) => {
                return Some(Err(e));
            },
        };
        let body = slice_subrange(buf, nul + 1, n);
        assert(body@ =~= buf@.skip(nul + 1));
        match obj_type {
            ObjectType::Blob => {
                let hn = hs.unicode_len();
                let size_text = hs.substring_char(sp + 1, hn);
                assert(size_text@ =~= hs@.skip(sp + 1));
                match parse_unsigned_bytes(size_text.as_bytes(), usize::MAX as u64) {
                    Ok(size) => {
                        let blob = Blob {
                            obj_type: obj_type,
                            content: slice_to_vec(body),
                            size: size as usize,
                        };
                        Some(Ok(Object::Blob(blob)))
                    },
                    Err(k) => Some(Err(GitError::InvalidSize(k))),
                }
            },
            ObjectType::Tree => {
                let parser = TreeParser::new(body, None);
                match parser.parse_checked() {
                    Some(Ok(entries)) => Some(Ok(Object::Tree(Tree { entries }))),
                    Some(Err(e)) => Some(Err(e)),
                    None => None,
                }
            },
            ObjectType::Commit => Some(Err(GitError::CommitUnsupported)),
        }
    }

    /// The type of the object.
    pub fn obj_type(&self) -> (res: ObjectType)
        ensures
            res == object_kind(self@),
    {
        match self {
            Object::Blob(_) => ObjectType::Blob,
            Object::Tree(_) => ObjectType::Tree,
        }
    }

    /// The size of the object: a blob's declared size, or the sum of a tree's entry sizes.
    pub fn size(&self) -> (res: usize)
        requires
            size_fits(self@),
        ensures
            res == object_size(self@),
    {
        match self.checked_size() {
            Some(n) => n,
            None => {
                assert(false);
                0
            },
        }
    }

    /// The size of the object; `None` where adding up a tree's entry sizes
    /// overflows a `usize` (where the sum would panic).
    pub fn checked_size(&self) -> (res: Option<usize>)
        ensures
            res is Some <==> size_fits(self@),
            res matches Some(n) ==> n == object_size(self@),
    {
        match self {
            Object::Blob(blob) => Some(blob.size),
            Object::Tree(tree) => {
                let n = tree.entries.len();
                let mut total: usize = 0;
                for i in 0..n
                    invariant
                        n == tree@.len(),
                        self@ == (ObjectView::Tree { entries: tree@ }),
                        total == entries_size(tree@.take(i as int)),
                {
                    proof {
                        assert(tree@.take(i + 1).drop_last() =~= tree@.take(i as int));
                        assert(tree@.take(i + 1).last() == tree.entries@[i as int]@);
                    }
                    match total.checked_add(tree.entries[i].size) {
                        Some(t) => {
                            total = t;
                        },
                        None => {
                            proof {
                                lemma_entries_size_prefix(tree@, i + 1);
                                assert(entries_size(tree@.take(i + 1)) == total
                                    + tree.entries@[i as int].size);
                            }
                            return None;
                        },
                    }
                }
                assert(tree@.take(n as int) =~= tree@);
                Some(total)
            },
        }
    }

    /// The content of the object: a blob's bytes, or a tree's entries listed
    /// one per line.
    pub fn content(&self) -> (res: Vec<u8>)
        requires
            modes_known(self@),
        ensures
            res@ == object_content(self@),
    {
        match self.checked_content() {
            Some(c) => c,
            None => {
                assert(false);
                Vec::new()
            },
        }
    }

    /// The content of the object; `None` where a tree entry's mode names no
    /// kind of entry (where listing it would panic).
    pub fn checked_content(&self) -> (res: Option<Vec<u8>>)
        ensures
            res is Some <==> modes_known(self@),
            res matches Some(c) ==> c@ == object_content(self@),
    {
        match self {
            Object::Blob(blob) => Some(slice_to_vec(blob.content.as_slice())),
            Object::Tree(tree) => {
                let n = tree.entries.len();
                let mut out: Vec<u8> = Vec::new();
                for i in 0..n
                    invariant
                        n == tree@.len(),
                        self@ == (ObjectView::Tree { entries: tree@ }),
                        modes_are_known(tree@.take(i as int)),
                        out@ == joined_lines(tree@.take(i as int)),
                {
                    let entry = &tree.entries[i];
                    assert(tree@[i as int] == entry@);
                    if !entry.mode_is_known() {
                        assert(crate::objects::tree::mode_of(tree@[i as int].mode) is None);
                        return None;
                    }
                    if i > 0 {
                        out.push(10);
                    }
                    let line = entry.line_bytes();
                    out.extend_from_slice(line.as_slice());
                    proof {
                        assert(tree@.take(i + 1).drop_last() =~= tree@.take(i as int));
                        assert(out@ =~= joined_lines(tree@.take(i + 1)));
                        assert forall|j: int| 0 <= j < i + 1 implies (#[trigger] crate::objects::tree::mode_of(
                            tree@.take(i + 1)[j].mode,
                        )) is Some by {
                            if j < i {
                                assert(tree@.take(i + 1)[j] == tree@.take(i as int)[j]);
                            }
                        }
                    }
                }
                assert(tree@.take(n as int) =~= tree@);
                Some(out)
            },
        }
    }
}

/// A prefix of the entries adds up to no more than all of them.
proof fn lemma_entries_size_prefix(es: Seq<EntryView>, i: int)
    requires
        0 <= i <= es.len(),
    ensures
        entries_size(es.take(i)) <= entries_size(es),
    decreases es.len() - i,
{
    if i < es.len() {
        lemma_entries_size_prefix(es, i + 1);
        assert(es.take(i + 1).drop_last() =~= es.take(i));
        assert(es.take(i + 1).last() == es[i]);
        assert(entries_size(es.take(i + 1)) == entries_size(es.take(i)) + es[i].size as nat);
    } else {
        assert(es.take(i) =~= es);
    }
}

/// The facts about a stored object's header that reading it relies on: where
/// its NUL and its space are, and what its type and size texts are.
proof fn lemma_header_reads_back(t: ObjectType, n: nat, body: Seq<u8>)
    ensures
        ({
            let head = object_header(t, n);
            let data = head + body;
            let nul = head.len() - 1;
            let h = decode_utf8(data.take(nul));
            let name_len = object_type_name(t).len() as int;
            &&& first_index(data, 0) == Some(nul)
            &&& valid_utf8(data.take(nul))
            &&& first_char_index(h, ' ') == Some(name_len)
            &&& trim(h.take(name_len)) == ascii_chars(object_type_name(t))
            &&& type_from_name(trim(h.take(name_len))) == Some(t)
            &&& encode_utf8(h.skip(name_len + 1)) == crate::objects::numbers::decimal(n)
            &&& data.skip(nul + 1) == body
        }),
{
    let name = object_type_name(t);
    let d = crate::objects::numbers::decimal(n);
    let head = object_header(t, n);
    let data = head + body;
    let nul = head.len() - 1;
    let name_len = name.len() as int;
    crate::objects::numbers::lemma_decimal_digits(n);
    let hb = name + seq![32u8] + d;
    assert(data.take(nul) =~= hb);
    assert forall|j: int| 0 <= j < nul implies data[j] != 0 by {
        if name_len < j {
            assert(data[j] == d[j - name_len - 1]);
            assert(crate::objects::numbers::is_digit(d[j - name_len - 1]));
        }
    }
    assert(data[nul] == 0);
    crate::objects::text::lemma_first_index_unique(data, 0, nul);
    assert(is_ascii_bytes(hb)) by {
        assert forall|i: int| 0 <= i < hb.len() implies #[trigger] hb[i] < 128 by {
            if name_len < i {
                assert(hb[i] == d[i - name_len - 1]);
                assert(crate::objects::numbers::is_digit(d[i - name_len - 1]));
            }
        }
    }
    lemma_ascii_chars_encode(hb);
    let h = decode_utf8(data.take(nul));
    assert(h == ascii_chars(hb));
    assert(h[name_len] == ' ');
    assert(crate::objects::text::is_first_char_index(h, ' ', name_len));
    let k = choose|k: int| crate::objects::text::is_first_char_index(h, ' ', k);
    if k < name_len {
        assert(h[k] != ' ');
    } else if name_len < k {
        assert(h[name_len] != ' ');
    }
    let word = h.take(name_len);
    assert(word =~= ascii_chars(name));
    assert(!crate::objects::text::is_whitespace(word[0]));
    assert(!crate::objects::text::is_whitespace(word.last()));
    assert(crate::objects::text::trim_start(word) == word);
    assert(trim(word) == word);
    assert(h.skip(name_len + 1) =~= ascii_chars(d));
    assert(is_ascii_bytes(d)) by {
        assert forall|i: int| 0 <= i < d.len() implies #[trigger] d[i] < 128 by {
            assert(crate::objects::numbers::is_digit(d[i]));
        }
    }
    lemma_ascii_chars_encode(d);
    assert(data.skip(nul + 1) =~= body);
}

/// Reading back a stored blob gives the blob: building an object from the
/// header of a blob of size `n` followed by `content` yields a blob with that
/// content and size, for every size that fits a `usize`.
pub proof fn law_blob_reads_back(n: nat, content: Seq<u8>)
    requires
        n <= usize::MAX,
    ensures
        object_outcome(object_header(ObjectType::Blob, n) + content) == Outcome::Done(
            ObjectView::Blob { obj_type: ObjectType::Blob, content, size: n as usize },
        ),
{
    lemma_header_reads_back(ObjectType::Blob, n, content);
    crate::objects::numbers::law_decimal_roundtrip(n, usize::MAX as nat);
}

/// Reading back a stored tree gives the tree: building an object from a tree
/// header followed by the stored form of entries whose hashes are object
/// hashes and whose filenames hold no NUL yields a tree with those entries
/// as they read back (sizes are the lengths of their stored forms), whatever
/// size the header declares.
pub proof fn law_tree_object_reads_back(n: nat, es: Seq<EntryView>)
    requires
        forall|i: int| 0 <= i < es.len() ==> crate::objects::tree::entry_readable(#[trigger] es[i]),
    ensures
        object_outcome(object_header(ObjectType::Tree, n) + crate::objects::tree::tree_bytes(es))
            == Outcome::Done(
            ObjectView::Tree {
                entries: es.map_values(|e: EntryView| crate::objects::tree::read_back(e)),
            },
        ),
{
    lemma_header_reads_back(ObjectType::Tree, n, crate::objects::tree::tree_bytes(es));
    crate::objects::tree::law_tree_roundtrip(es);
}

/// Reading a type's name gives the type back: `from_name` undoes `name`.
pub proof fn law_type_name_roundtrip(t: ObjectType)
    ensures
        type_from_name(ascii_chars(object_type_name(t))) == Some(t),
{
    let b = ascii_chars(object_type_name(ObjectType::Blob));
    let tr = ascii_chars(object_type_name(ObjectType::Tree));
    let c = ascii_chars(object_type_name(ObjectType::Commit));
    assert(b[0] != tr[0]);
    assert(b.len() != c.len());
    assert(tr.len() != c.len());
}

/// The sizes of an entry and the entries after it add up.
proof fn lemma_entries_size_prepend(e: EntryView, rest: Seq<EntryView>)
    ensures
        entries_size(seq![e] + rest) == e.size + entries_size(rest),
    decreases rest.len(),
{
    if rest.len() == 0 {
        assert((seq![e] + rest).drop_last() =~= Seq::<EntryView>::empty());
        assert((seq![e] + rest).last() == e);
        assert(entries_size(rest) == 0);
        assert(entries_size(Seq::<EntryView>::empty()) == 0);
    } else {
        assert((seq![e] + rest).drop_last() =~= seq![e] + rest.drop_last());
        assert((seq![e] + rest).last() == rest.last());
        lemma_entries_size_prepend(e, rest.drop_last());
    }
}

/// The entries parsed from a tree's body take all of it: their sizes add up
/// to the body's length.
proof fn lemma_entries_size_body(b: Seq<u8>, prefix: Option<Seq<char>>)
    requires
        b.len() <= usize::MAX,
    ensures
        entries_outcome(b, prefix) matches Outcome::Done(es) ==> entries_size(es) == b.len(),
    decreases b.len(),
{
    if b.len() > 0 {
        crate::objects::tree::lemma_entry_length(b, prefix);
        if let Outcome::Done((e, n)) = crate::objects::tree::entry_outcome(b, prefix) {
            lemma_entries_size_body(b.skip(n as int), prefix);
            if let Outcome::Done(rest) = entries_outcome(b.skip(n as int), prefix) {
                lemma_entries_size_prepend(e, rest);
            }
        }
    } else {
        assert(entries_size(Seq::<EntryView>::empty()) == 0);
    }
}

/// A tree's size is the length of its body: for every buffer that builds
/// into a tree, the sizes of its entries add up (within a `usize`) to the
/// number of bytes after the header's NUL.
pub proof fn law_tree_size_is_body_length(buf: Seq<u8>)
    requires
        buf.len() <= usize::MAX,
        object_outcome(buf) matches Outcome::Done(ObjectView::Tree { .. }),
    ensures
        object_outcome(buf) matches Outcome::Done(o) && size_fits(o) && object_size(o) == buf.len()
            - (first_index(buf, 0)->0 + 1),
{
    let nul = first_index(buf, 0)->0;
    assert(buf.skip(nul + 1).len() == buf.len() - (nul + 1));
    lemma_entries_size_body(buf.skip(nul + 1), None);
}

/// A tree's content puts exactly one newline between consecutive entry
/// lines: the content of one entry is its line, and adding an entry after
/// one or more entries appends a newline and its line.
pub proof fn law_tree_content_lines(es: Seq<EntryView>, e: EntryView)
    ensures
        object_content(ObjectView::Tree { entries: seq![e] }) == entry_line(e),
        es.len() > 0 ==> object_content(ObjectView::Tree { entries: es.push(e) }) == object_content(
            ObjectView::Tree { entries: es },
        ) + seq![10u8] + entry_line(e),
{
    assert(es.push(e).drop_last() =~= es);
    assert(seq![e].len() == 1);
}

/// A blob's content is all of its stored bytes after the header's NUL: the
/// blob built from a blob header and `content` shows exactly `content`, and
/// when the header declares the content's length, that is its size.
pub proof fn law_blob_content(n: nat, content: Seq<u8>)
    requires
        n <= usize::MAX,
    ensures
        object_outcome(object_header(ObjectType::Blob, n) + content) matches Outcome::Done(o)
            && modes_known(o) && object_content(o) == content && object_kind(o) == ObjectType::Blob
            && (content.len() == n ==> object_size(o) == content.len()),
{
    law_blob_reads_back(n, content);
}

} // verus!
