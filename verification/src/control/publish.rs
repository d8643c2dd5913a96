//! Publishing and listing files, and deploying apps.

use crate::bytes::Cid;
use crate::control::params::{node_of, parse_node_id, refuse, refused};
use crate::digest::blake3_digest;
use crate::parse::{chars_of, same_text};
use vstd::prelude::*;
use vstd::string::*;

verus! {

/// The part of a name behind its last dot; the whole name where it has none.
pub open spec fn extension(s: Seq<char>) -> Seq<char>
    decreases s.len(),
{
    if s.len() == 0 {
        s
    } else if s.last() == '.' {
        Seq::empty()
    } else {
        extension(s.drop_last()).push(s.last())
    }
}

/// A letter in lower case.
pub open spec fn lower(c: char) -> char {
    if 'A' <= c <= 'Z' {
        (c as u32 + 32) as char
    } else {
        c
    }
}

/// A text in lower case.
pub open spec fn lowered(s: Seq<char>) -> Seq<char> {
    s.map_values(|c: char| lower(c))
}

/// The type of content by its extension.
pub open spec fn mime_of(ext: Seq<char>) -> Seq<char> {
    if ext == "txt"@ {
        "text/plain"@
    } else if ext == "md"@ {
        "text/markdown"@
    } else if ext == "html"@ || ext == "htm"@ {
        "text/html"@
    } else if ext == "css"@ {
        "text/css"@
    } else if ext == "json"@ {
        "application/json"@
    } else if ext == "pdf"@ {
        "application/pdf"@
    } else if ext == "jpg"@ || ext == "jpeg"@ {
        "image/jpeg"@
    } else if ext == "png"@ {
        "image/png"@
    } else if ext == "gif"@ {
        "image/gif"@
    } else if ext == "webp"@ {
        "image/webp"@
    } else if ext == "svg"@ {
        "image/svg+xml"@
    } else if ext == "mp4"@ {
        "video/mp4"@
    } else if ext == "mp3"@ {
        "audio/mpeg"@
    } else if ext == "zip"@ {
        "application/zip"@
    } else if ext == "wasm"@ {
        "application/wasm"@
    } else {
        "application/octet-stream"@
    }
}

fn lower_char(c: char) -> (l: char)
    ensures
        l == lower(c),
{
    if 'A' <= c && c <= 'Z' {
        ((c as u8) + 32) as char
    } else {
        c
    }
}

/// The extension of a name, in lower case.
fn extension_of(name: &str) -> (ext: String)
    ensures
        ext@ == lowered(extension(name@)),
{
    let chars = chars_of(name);
    let mut from: usize = chars.len();
    assert(chars@.take(from as int) =~= chars@);
    assert(chars@.subrange(from as int, chars@.len() as int) =~= Seq::<char>::empty());
    assert(extension(chars@) =~= extension(chars@.take(from as int)) + chars@.subrange(
        from as int,
        chars@.len() as int,
    ));
    while from > 0 && chars[from - 1] != '.'
        invariant
            from <= chars@.len(),
            extension(chars@) == extension(chars@.take(from as int)) + chars@.subrange(
                from as int,
                chars@.len() as int,
            ),
        decreases from,
    {
        proof {
            let t = chars@.take(from as int);
            assert(t.last() == chars@[from - 1]);
            assert(t.drop_last() =~= chars@.take(from - 1));
            assert(extension(t) == extension(chars@.take(from - 1)).push(t.last()));
            assert(extension(t) + chars@.subrange(from as int, chars@.len() as int) =~= extension(
                chars@.take(from - 1),
            ) + chars@.subrange(from - 1, chars@.len() as int));
        }
        from = from - 1;
    }
    let ghost tail = chars@.subrange(from as int, chars@.len() as int);
    proof {
        let t = chars@.take(from as int);
        if from > 0 {
            assert(t.last() == chars@[from - 1]);
        }
        assert(extension(t) =~= Seq::<char>::empty());
        assert(extension(chars@) =~= tail);
    }
    let mut ext = String::new();
    let mut i: usize = from;
    assert(ext@ =~= lowered(chars@.subrange(from as int, i as int)));
    while i < chars.len()
        invariant
            from <= i <= chars@.len(),
            ext@ == lowered(chars@.subrange(from as int, i as int)),
        decreases chars@.len() - i,
    {
        ext.push(lower_char(chars[i]));
        i = i + 1;
        assert(ext@ =~= lowered(chars@.subrange(from as int, i as int)));
    }
    ext
}

/// Guesses the type of content from a file name.
pub fn guess_mime(name: &str) -> (mime: String)
    ensures
        mime@ == mime_of(lowered(extension(name@))),
{
    let ext = extension_of(name);
    let e = ext.as_str();
    if same_text(e, "txt") {
        String::from_str("text/plain")
    } else if same_text(e, "md") {
        String::from_str("text/markdown")
    } else if same_text(e, "html") || same_text(e, "htm") {
        String::from_str("text/html")
    } else if same_text(e, "css") {
        String::from_str("text/css")
    } else if same_text(e, "json") {
        String::from_str("application/json")
    } else if same_text(e, "pdf") {
        String::from_str("application/pdf")
    } else if same_text(e, "jpg") || same_text(e, "jpeg") {
        String::from_str("image/jpeg")
    } else if same_text(e, "png") {
        String::from_str("image/png")
    } else if same_text(e, "gif") {
        String::from_str("image/gif")
    } else if same_text(e, "webp") {
        String::from_str("image/webp")
    } else if same_text(e, "svg") {
        String::from_str("image/svg+xml")
    } else if same_text(e, "mp4") {
        String::from_str("video/mp4")
    } else if same_text(e, "mp3") {
        String::from_str("audio/mpeg")
    } else if same_text(e, "zip") {
        String::from_str("application/zip")
    } else if same_text(e, "wasm") {
        String::from_str("application/wasm")
    } else {
        String::from_str("application/octet-stream")
    }
}

/// The control characters of Unicode.
pub open spec fn is_control(c: char) -> bool {
    let n = c as u32;
    n <= 0x1f || 0x7f <= n <= 0x9f
}

/// Whether a name may be deployed under: it is not empty and has no control character, which
/// the names of the protocol begin with.
pub open spec fn is_app_name(s: Seq<char>) -> bool {
    s.len() > 0 && forall|i: int| 0 <= i < s.len() ==> !is_control(#[trigger] s[i])
}

fn app_name_ok(name: &str) -> (ok: bool)
    ensures
        ok == is_app_name(name@),
{
    let chars = chars_of(name);
    if chars.len() == 0 {
        return false;
    }
    let mut i: usize = 0;
    while i < chars.len()
        invariant
            i <= chars@.len(),
            chars@ == name@,
            forall|j: int| 0 <= j < i ==> !is_control(#[trigger] chars@[j]),
        decreases chars@.len() - i,
    {
        let n: u32 = chars[i] as u32;
        if n <= 0x1f || (0x7f <= n && n <= 0x9f) {
            assert(is_control(name@[i as int]));
            return false;
        }
        i = i + 1;
    }
    true
}

/// What is deployed.
#[derive(Debug)]
pub struct Deployment {
    pub name: String,
    pub cid: [u8; 32],
    pub size: usize,
}

/// Checks a deployment: under a proper name, at the address that is the hash of its code.
pub fn deploy_bytes(name: &str, bytes: &[u8]) -> (r: Result<Deployment, String>)
    ensures
        if is_app_name(name@) {
            &&& r matches Ok(d)
            &&& d.name@ == name@
            &&& d.cid@ == blake3_digest(bytes@)
            &&& d.size == bytes@.len()
        } else {
            refused(r, "invalid app name (empty or control chars reserved)"@)
        },
{
    if !app_name_ok(name) {
        return refuse("invalid app name (empty or control chars reserved)");
    }
    Ok(Deployment { name: String::from_str(name), cid: Cid::of(bytes).0, size: bytes.len() })
}

/// The version that a deployment is registered under: the one after the registered one, or
/// the first where this node's identity cannot be read.
pub fn deploy_version(self_hex: &str, registered: u64) -> (version: u64)
    requires
        registered < u64::MAX,
    ensures
        version == (if node_of(self_hex@) is Some {
            (registered + 1) as u64
        } else {
            1
        }),
{
    match parse_node_id(self_hex) {
        Some(_) => registered + 1,
        None => 1,
    }
}

/// No name that the protocol announces under can be deployed.
pub proof fn law_protocol_names_are_reserved(rest: Seq<char>)
    ensures
        !is_app_name(seq!['\u{1}'] + rest),
{
    let s = seq!['\u{1}'] + rest;
    assert(is_control(s[0]));
}

/// Sizes together.
pub open spec fn total_of(sizes: Seq<u64>) -> nat
    decreases sizes.len(),
{
    if sizes.len() == 0 {
        0
    } else {
        total_of(sizes.drop_last()) + sizes.last() as nat
    }
}

proof fn lemma_total_grows(sizes: Seq<u64>, i: int)
    requires
        0 <= i <= sizes.len(),
    ensures
        total_of(sizes.take(i)) <= total_of(sizes),
    decreases sizes.len(),
{
    if i == sizes.len() {
        assert(sizes.take(i) =~= sizes);
    } else {
        lemma_total_grows(sizes.drop_last(), i);
        assert(sizes.drop_last().take(i) =~= sizes.take(i));
    }
}

/// The size of a folder: that of all its entries.
pub fn folder_size(sizes: &[u64]) -> (total: u64)
    requires
        total_of(sizes@) <= u64::MAX,
    ensures
        total == total_of(sizes@),
{
    let mut total: u64 = 0;
    let mut i: usize = 0;
    assert(sizes@.take(0) =~= Seq::<u64>::empty());
    while i < sizes.len()
        invariant
            i <= sizes@.len(),
            total_of(sizes@) <= u64::MAX,
            total == total_of(sizes@.take(i as int)),
        decreases sizes@.len() - i,
    {
        proof {
            let next = sizes@.take(i + 1);
            assert(next.drop_last() =~= sizes@.take(i as int));
            assert(next.last() == sizes@[i as int]);
            lemma_total_grows(sizes@, i + 1);
        }
        total = total + sizes[i];
        i = i + 1;
    }
    assert(sizes@.take(i as int) =~= sizes@);
    total
}

/// What is known of a published item.
#[derive(Debug)]
pub enum DriveItem {
    /// A private file, and what it decrypts to where it does: name, size and type.
    Private(Option<(String, u64, String)>),
    /// A public file: name, size and type.
    File(String, u64, String),
    /// A folder: name and size.
    Folder(String, u64),
    /// It could not be fetched.
    Unavailable,
}

/// A row of the listing of one's files.
#[derive(Debug)]
pub struct DriveRow {
    pub cid: String,
    pub name: String,
    pub size: u64,
    pub mime: String,
    pub is_dir: bool,
    pub published_at: i64,
    pub is_private: bool,
}

/// What a row shows of an item: name, size, type, whether it is a folder, whether it is
/// private.
pub open spec fn shown_as(item: DriveItem) -> (Seq<char>, u64, Seq<char>, bool, bool) {
    match item {
        DriveItem::Private(Some((name, size, mime))) => (name@, size, mime@, false, true),
        DriveItem::Private(None) => ("(locked)"@, 0, "encrypted"@, false, true),
        DriveItem::File(name, size, mime) => (name@, size, mime@, false, false),
        DriveItem::Folder(name, size) => (name@, size, "inode/directory"@, true, false),
        DriveItem::Unavailable => ("(unavailable)"@, 0, ""@, false, false),
    }
}

/// The row of an item.
pub fn drive_row(cid: String, published_at: i64, item: DriveItem) -> (row: DriveRow)
    ensures
        row.cid == cid,
        row.published_at == published_at,
        (row.name@, row.size, row.mime@, row.is_dir, row.is_private) == shown_as(item),
{
    let (name, size, mime, is_dir, is_private) = match item {
        DriveItem::Private(Some((name, size, mime))) => (name, size, mime, false, true),
        DriveItem::Private(None) => (
            String::from_str("(locked)"),
            0,
            String::from_str("encrypted"),
            false,
            true,
        ),
        DriveItem::File(name, size, mime) => (name, size, mime, false, false),
        DriveItem::Folder(name, size) => (
            name,
            size,
            String::from_str("inode/directory"),
            true,
            false,
        ),
        DriveItem::Unavailable => (
            String::from_str("(unavailable)"),
            0,
            String::from_str(""),
            false,
            false,
        ),
    };
    DriveRow { cid, name, size, mime, is_dir, published_at, is_private }
}

/// The extension of a name is all that stands behind its last dot, and the whole name where it has
/// none.
pub proof fn law_extensions_stand_behind_the_last_dot(stem: Seq<char>, ext: Seq<char>)
    requires
        !ext.contains('.'),
    ensures
        extension(stem + seq!['.'] + ext) == ext,
        extension(ext) == ext,
    decreases ext.len(),
{
    let s = stem + seq!['.'] + ext;
    if ext.len() == 0 {
        assert(s.last() == '.');
        assert(extension(s) =~= ext);
    } else {
        let front = ext.drop_last();
        assert(ext.contains(ext.last()));
        assert(!front.contains('.')) by {
            if front.contains('.') {
                let k = choose|k: int| 0 <= k < front.len() && front[k] == '.';
                assert(ext[k] == '.');
            }
        }
        law_extensions_stand_behind_the_last_dot(stem, front);
        assert(s.drop_last() =~= stem + seq!['.'] + front);
        assert(s.last() == ext.last());
        assert(front.push(ext.last()) =~= ext);
    }
}

/// Lowering changes the upper-case letters of ASCII into the lower-case ones, and nothing else.
pub proof fn law_lowering_keeps_all_but_capitals(s: Seq<char>, i: int)
    requires
        0 <= i < s.len(),
    ensures
        lowered(s).len() == s.len(),
        'A' <= s[i] <= 'Z' ==> 'a' <= lowered(s)[i] <= 'z' && lowered(s)[i] as u32 - s[i] as u32
            == 32,
        !('A' <= s[i] <= 'Z') ==> lowered(s)[i] == s[i],
{
}

/// The size of a folder is that of all it holds.
pub proof fn law_sizes_add_up(sizes: Seq<u64>, size: u64)
    ensures
        total_of(Seq::empty()) == 0,
        total_of(sizes.push(size)) == total_of(sizes) + size,
{
    assert(sizes.push(size).drop_last() =~= sizes);
}

/// An app can be named by any text that is not empty and holds no control character.
pub proof fn law_visible_names_are_app_names(s: Seq<char>, i: int)
    ensures
        !is_app_name(Seq::empty()),
        0 <= i < s.len() && (s[i] as u32) < 0x20 ==> !is_app_name(s),
        0 <= i < s.len() && 0x7f <= s[i] as u32 <= 0x9f ==> !is_app_name(s),
        s.len() > 0 && (forall|k: int|
            0 <= k < s.len() ==> (0x20 <= #[trigger] s[k] as u32 <= 0x7e || s[k] as u32 >= 0xa0))
            ==> is_app_name(s),
{
    if 0 <= i < s.len() {
        assert(is_control(s[i]) ==> !is_app_name(s));
    }
}

/// What a row shows of an item: only folders are folders, only private items are private, and
/// what is not known is shown with no size.
pub proof fn law_rows_show_their_item(item: DriveItem)
    ensures
        ({
            let (name, size, mime, is_dir, is_private) = shown_as(item);
            &&& is_dir <==> item is Folder
            &&& is_private <==> item is Private
            &&& item matches DriveItem::File(n, z, m) ==> name == n@ && size == z && mime == m@
            &&& item matches DriveItem::Folder(n, z) ==> name == n@ && size == z
            &&& item matches DriveItem::Private(Some((n, z, m))) ==> name == n@ && size == z && mime
                == m@
            &&& item == DriveItem::Private(None) || item is Unavailable ==> size == 0
        }),
{
}

/// The types that extensions stand for.
pub proof fn law_extensions_tell_the_type()
    ensures
        mime_of("txt"@) == "text/plain"@,
        mime_of("md"@) == "text/markdown"@,
        mime_of("html"@) == "text/html"@,
        mime_of("htm"@) == "text/html"@,
        mime_of("css"@) == "text/css"@,
        mime_of("json"@) == "application/json"@,
        mime_of("pdf"@) == "application/pdf"@,
        mime_of("jpg"@) == "image/jpeg"@,
        mime_of("jpeg"@) == "image/jpeg"@,
        mime_of("png"@) == "image/png"@,
        mime_of("gif"@) == "image/gif"@,
        mime_of("webp"@) == "image/webp"@,
        mime_of("svg"@) == "image/svg+xml"@,
        mime_of("mp4"@) == "video/mp4"@,
        mime_of("mp3"@) == "audio/mpeg"@,
        mime_of("zip"@) == "application/zip"@,
        mime_of("wasm"@) == "application/wasm"@,
{
    reveal_strlit("txt");
    reveal_strlit("md");
    reveal_strlit("html");
    reveal_strlit("htm");
    reveal_strlit("css");
    reveal_strlit("json");
    reveal_strlit("pdf");
    reveal_strlit("jpg");
    reveal_strlit("jpeg");
    reveal_strlit("png");
    reveal_strlit("gif");
    reveal_strlit("webp");
    reveal_strlit("svg");
    reveal_strlit("mp4");
    reveal_strlit("mp3");
    reveal_strlit("zip");
    reveal_strlit("wasm");
    assert("htm"@[0] != "txt"@[0]);
    assert("css"@[0] != "txt"@[0]);
    assert("css"@[0] != "htm"@[0]);
    assert("json"@[0] != "html"@[0]);
    assert("pdf"@[0] != "txt"@[0]);
    assert("pdf"@[0] != "htm"@[0]);
    assert("pdf"@[0] != "css"@[0]);
    assert("jpg"@[0] != "txt"@[0]);
    assert("jpg"@[0] != "htm"@[0]);
    assert("jpg"@[0] != "css"@[0]);
    assert("jpg"@[0] != "pdf"@[0]);
    assert("jpeg"@[0] != "html"@[0]);
    assert("jpeg"@[1] != "json"@[1]);
    assert("png"@[0] != "txt"@[0]);
    assert("png"@[0] != "htm"@[0]);
    assert("png"@[0] != "css"@[0]);
    assert("png"@[1] != "pdf"@[1]);
    assert("png"@[0] != "jpg"@[0]);
    assert("gif"@[0] != "txt"@[0]);
    assert("gif"@[0] != "htm"@[0]);
    assert("gif"@[0] != "css"@[0]);
    assert("gif"@[0] != "pdf"@[0]);
    assert("gif"@[0] != "jpg"@[0]);
    assert("gif"@[0] != "png"@[0]);
    assert("webp"@[0] != "html"@[0]);
    assert("webp"@[0] != "json"@[0]);
    assert("webp"@[0] != "jpeg"@[0]);
    assert("svg"@[0] != "txt"@[0]);
    assert("svg"@[0] != "htm"@[0]);
    assert("svg"@[0] != "css"@[0]);
    assert("svg"@[0] != "pdf"@[0]);
    assert("svg"@[0] != "jpg"@[0]);
    assert("svg"@[0] != "png"@[0]);
    assert("svg"@[0] != "gif"@[0]);
    assert("mp4"@[0] != "txt"@[0]);
    assert("mp4"@[0] != "htm"@[0]);
    assert("mp4"@[0] != "css"@[0]);
    assert("mp4"@[0] != "pdf"@[0]);
    assert("mp4"@[0] != "jpg"@[0]);
    assert("mp4"@[0] != "png"@[0]);
    assert("mp4"@[0] != "gif"@[0]);
    assert("mp4"@[0] != "svg"@[0]);
    assert("mp3"@[0] != "txt"@[0]);
    assert("mp3"@[0] != "htm"@[0]);
    assert("mp3"@[0] != "css"@[0]);
    assert("mp3"@[0] != "pdf"@[0]);
    assert("mp3"@[0] != "jpg"@[0]);
    assert("mp3"@[0] != "png"@[0]);
    assert("mp3"@[0] != "gif"@[0]);
    assert("mp3"@[0] != "svg"@[0]);
    assert("mp3"@[2] != "mp4"@[2]);
    assert("zip"@[0] != "txt"@[0]);
    assert("zip"@[0] != "htm"@[0]);
    assert("zip"@[0] != "css"@[0]);
    assert("zip"@[0] != "pdf"@[0]);
    assert("zip"@[0] != "jpg"@[0]);
    assert("zip"@[0] != "png"@[0]);
    assert("zip"@[0] != "gif"@[0]);
    assert("zip"@[0] != "svg"@[0]);
    assert("zip"@[0] != "mp4"@[0]);
    assert("zip"@[0] != "mp3"@[0]);
    assert("wasm"@[0] != "html"@[0]);
    assert("wasm"@[0] != "json"@[0]);
    assert("wasm"@[0] != "jpeg"@[0]);
    assert("wasm"@[1] != "webp"@[1]);
    assert("mp3"@ != "mp4"@);
    assert("md"@.len() == 2 && "mp4"@.len() == 3 && "mp3"@.len() == 3);
}

/// An app is deployed under the digest of its code, with the version behind the one registered, and
/// behind none where this node cannot be told.
pub proof fn law_apps_are_deployed_by_digest(
    name: &str,
    bytes: &[u8],
    r: Result<Deployment, String>,
    self_hex: &str,
    me: Seq<u8>,
    registered: u64,
    version: u64,
)
    requires
        registered < u64::MAX,
        me.len() == 32,
        self_hex@ == crate::text::hex_text(me),
        call_ensures(deploy_bytes, (name, bytes), r),
        call_ensures(deploy_version, (self_hex, registered), version),
    ensures
        r is Ok <==> is_app_name(name@),
        r is Ok ==> r->Ok_0.name@ == name@ && r->Ok_0.cid@ == blake3_digest(bytes@) && r->Ok_0.size
            == bytes@.len(),
        version == registered + 1,
{
    crate::control::params::law_hex_fields_read_back(me);
}

/// The type of a file is guessed by its extension, of either case.
pub proof fn law_types_are_guessed_by_extension(
    name: &str,
    stem: Seq<char>,
    ext: Seq<char>,
    mime: String,
)
    requires
        !ext.contains('.'),
        name@ == stem + seq!['.'] + ext,
        call_ensures(guess_mime, (name,), mime),
    ensures
        mime@ == mime_of(lowered(ext)),
{
    law_extensions_stand_behind_the_last_dot(stem, ext);
}

} // verus!
