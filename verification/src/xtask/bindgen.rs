//! Text of the generated scripts: a compiled module is carried inside
//! its script as base64 text in a constant.

use base64::Engine;
use vstd::prelude::*;
use vstd::slice::slice_subrange;
use vstd::string::is_ascii_spec_bytes;
use vstd::string::StringSliceAdditionalSpecFns;

verus! {

/// The width of the lines of the declaration. A line that is full is
/// ended with a backslash, and the text goes on in the next line.
pub const LINE_WIDTH: usize = 79;

/// The byte of a double quote.
pub const QUOTE: u8 = 34;

/// The byte of a semicolon.
pub const SEMICOLON: u8 = 59;

/// The byte of a backslash.
pub const BACKSLASH: u8 = 92;

/// The byte of a line feed.
pub const NEWLINE: u8 = 10;

/// The text that opens the declaration.
pub open spec fn decl_prefix() -> Seq<u8> {
    "const wasm_b64 = \"".spec_bytes()
}

/// The opening text is 18 bytes long.
pub proof fn lemma_decl_prefix_len()
    ensures
        decl_prefix().len() == 18,
{
    reveal_strlit("const wasm_b64 = \"");
    is_ascii_spec_bytes("const wasm_b64 = \"");
}

/// The text that closes the declaration: `";`.
pub open spec fn decl_suffix() -> Seq<u8> {
    seq![QUOTE, SEMICOLON]
}

/// What stands in the declaration for the byte at place `i` of the
/// text: the byte itself, behind a line break where the line before it
/// is full. The opening text is on the first line.
pub open spec fn wrapped_byte(i: int, byte: u8) -> Seq<u8> {
    if (decl_prefix().len() + i) % (LINE_WIDTH as int) == 0 {
        seq![BACKSLASH, NEWLINE, byte]
    } else {
        seq![byte]
    }
}

/// The text broken into the lines of the declaration.
pub open spec fn wrapped(text: Seq<u8>) -> Seq<u8>
    decreases text.len(),
{
    if text.len() == 0 {
        Seq::empty()
    } else {
        wrapped(text.drop_last()) + wrapped_byte(text.len() - 1, text.last())
    }
}

/// The declaration of a constant that holds `text`.
pub open spec fn js_decl(text: Seq<u8>) -> Seq<u8> {
    decl_prefix() + wrapped(text) + decl_suffix()
}

/// The base64 text of `input` in the standard alphabet, with padding,
/// as the `base64` crate encodes it.
pub uninterp spec fn base64_standard(input: Seq<u8>) -> Seq<u8>;

/// The longest input that can be encoded: four bytes of text for every
/// three of input have to fit the address range.
pub open spec fn max_encodable() -> int {
    usize::MAX / 4 * 3
}

/// Calls `Engine::encode` of the `base64` crate on its `STANDARD` engine
/// and hands the text back as bytes. The text is taken to depend on the
/// input alone. Longer input than [`max_encodable`] is left out: the
/// crate panics where the length of the text overflows.
#[verifier::external_body]
fn base64_encode(input: &[u8]) -> (encoded: Vec<u8>)
    requires
        input@.len() <= max_encodable(),
    ensures
        encoded@ == base64_standard(input@),
{
    base64::engine::general_purpose::STANDARD.encode(input).into_bytes()
}

/// The declaration of a constant that holds `text`: see [`js_decl`].
pub fn js_decl_of(text: &[u8]) -> (contents: Vec<u8>)
    ensures
        contents@ == js_decl(text@),
{
    let mut contents: Vec<u8> = Vec::new();
    contents.extend_from_slice("const wasm_b64 = \"".as_bytes());
    let mut line_len: usize = contents.len();
    let mut idx: usize = 0;
    proof {
        lemma_decl_prefix_len();
        assert(contents@ =~= decl_prefix());
        assert(text@.take(0) =~= Seq::<u8>::empty());
        assert(contents@ =~= decl_prefix() + wrapped(text@.take(0)));
    }
    while idx < text.len()
        invariant
            idx <= text@.len(),
            1 <= line_len <= LINE_WIDTH,
            decl_prefix().len() == 18,
            line_len as int % 79 == (18 + idx) % 79,
            contents@ == decl_prefix() + wrapped(text@.take(idx as int)),
        decreases text@.len() - idx,
    {
        let ghost before = contents@;
        if line_len == LINE_WIDTH {
            contents.push(BACKSLASH);
            contents.push(NEWLINE);
            line_len = 0;
        }
        contents.push(text[idx]);
        proof {
            let longer = text@.take(idx + 1);
            assert(longer.drop_last() =~= text@.take(idx as int));
            assert(longer.last() == text@[idx as int]);
            assert(contents@ =~= before + wrapped_byte(idx as int, text@[idx as int]));
            assert(contents@ =~= decl_prefix() + wrapped(longer));
        }
        idx += 1;
        line_len += 1;
    }
    proof {
        assert(text@.take(idx as int) =~= text@);
    }
    contents.push(QUOTE);
    contents.push(SEMICOLON);
    proof {
        assert(contents@ =~= js_decl(text@));
    }
    contents
}

/// Encodes a compiled module into base64 and declares a constant that
/// holds the text.
pub fn encode_wasm_js_decl(wasm: &[u8]) -> (contents: Vec<u8>)
    requires
        wasm@.len() <= max_encodable(),
    ensures
        contents@ == js_decl(base64_standard(wasm@)),
{
    let encoded = base64_encode(wasm);
    js_decl_of(encoded.as_slice())
}

/// [`encode_wasm_js_decl`] for any input: `None` where the module is too
/// long to encode.
pub fn try_encode_wasm_js_decl(wasm: &[u8]) -> (contents: Option<Vec<u8>>)
    ensures
        wasm@.len() <= max_encodable() ==> (contents matches Some(made) && made@ == js_decl(
            base64_standard(wasm@),
        )),
        wasm@.len() > max_encodable() ==> contents is None,
{
    if wasm.len() <= usize::MAX / 4 * 3 {
        Some(encode_wasm_js_decl(wasm))
    } else {
        None
    }
}


/// The line of the generated script from which on the script's own
/// set-up is replaced: its first line that holds this text ends what is
/// kept of it.
pub open spec fn init_marker() -> Seq<u8> {
    "function initSync(module) {".spec_bytes()
}

/// Whether `pattern` stands in `text` at place `at`.
pub open spec fn occurs_at(text: Seq<u8>, pattern: Seq<u8>, at: int) -> bool {
    &&& 0 <= at
    &&& at + pattern.len() <= text.len()
    &&& text.subrange(at, at + pattern.len()) == pattern
}

/// Whether `pattern` stands somewhere in `text`.
pub open spec fn occurs_in(text: Seq<u8>, pattern: Seq<u8>) -> bool {
    exists|at: int| occurs_at(text, pattern, at)
}

/// The length of the first line of `text`, with the line feed that
/// ends it; a last line need not have one.
pub open spec fn first_line_len(text: Seq<u8>) -> int
    decreases text.len(),
{
    if text.len() == 0 {
        0
    } else if text[0] == NEWLINE {
        1
    } else {
        1 + first_line_len(text.drop_first())
    }
}

/// The lines of `text` that come before its first line in which
/// `marker` stands; all of them where it stands in none.
pub open spec fn lines_before(text: Seq<u8>, marker: Seq<u8>) -> Seq<u8>
    decreases text.len(),
{
    if text.len() == 0 {
        Seq::empty()
    } else {
        let n = first_line_len(text);
        if 0 < n <= text.len() && !occurs_in(text.take(n), marker) {
            text.take(n) + lines_before(text.skip(n), marker)
        } else {
            Seq::empty()
        }
    }
}

/// The script that is made of a declaration, the lines of the
/// generated script that are kept, and the addendum that takes the
/// place of the rest.
pub open spec fn joined(decl: Seq<u8>, binder: Seq<u8>, addendum: Seq<u8>) -> Seq<u8> {
    decl.push(NEWLINE) + lines_before(binder, init_marker()) + addendum
}

/// The first line ends behind the first line feed, or with the text.
pub proof fn lemma_first_line_len(text: Seq<u8>, k: int)
    requires
        0 <= k <= text.len(),
        forall|j: int| 0 <= j < k ==> text[j] != NEWLINE,
        k < text.len() ==> text[k] == NEWLINE,
    ensures
        first_line_len(text) == if k < text.len() {
            k + 1
        } else {
            k
        },
    decreases k,
{
    if k > 0 {
        let rest = text.drop_first();
        assert(text[0] != NEWLINE);
        assert forall|j: int| 0 <= j < k - 1 implies rest[j] != NEWLINE by {
            assert(rest[j] == text[j + 1]);
        }
        if k - 1 < rest.len() {
            assert(rest[k - 1] == text[k]);
        }
        lemma_first_line_len(rest, k - 1);
    }
}

/// Whether `pattern` stands somewhere in `text`.
pub fn contains_bytes(text: &[u8], pattern: &[u8]) -> (found: bool)
    ensures
        found == occurs_in(text@, pattern@),
{
    if pattern.len() > text.len() {
        assert forall|at: int| !occurs_at(text@, pattern@, at) by {}
        return false;
    }
    let text_len: usize = text.len();
    let last: usize = text_len - pattern.len();
    let mut at: usize = 0;
    while at <= last
        invariant
            text_len == text@.len(),
            last == text@.len() - pattern@.len(),
            at <= last + 1,
            forall|earlier: int| 0 <= earlier < at ==> !occurs_at(text@, pattern@, earlier),
        decreases last + 1 - at,
    {
        let mut i: usize = 0;
        while i < pattern.len() && text[at + i] == pattern[i]
            invariant
                at <= last,
                text_len == text@.len(),
                last == text@.len() - pattern@.len(),
                i <= pattern@.len(),
                forall|j: int| 0 <= j < i ==> text@[at + j] == pattern@[j],
            decreases pattern@.len() - i,
        {
            i += 1;
        }
        if i == pattern.len() {
            proof {
                assert(text@.subrange(at as int, at + pattern@.len()) =~= pattern@);
                assert(occurs_at(text@, pattern@, at as int));
            }
            return true;
        }
        proof {
            assert(text@.subrange(at as int, at + pattern@.len())[i as int] == text@[at + i]);
        }
        at += 1;
    }
    proof {
        assert forall|any: int| !occurs_at(text@, pattern@, any) by {}
    }
    false
}

/// Puts a script together: the declaration `js_str`, a line feed, the
/// lines of the generated script `binder` up to the first line that
/// holds the start of its own set-up function, and the `addendum` in
/// place of that function and what follows it.
pub fn join_with_binder(js_str: Vec<u8>, binder: &[u8], addendum: &[u8]) -> (script: Vec<u8>)
    ensures
        script@ == joined(js_str@, binder@, addendum@),
{
    let marker = "function initSync(module) {".as_bytes();
    let mut script = js_str;
    script.push(NEWLINE);
    let mut start: usize = 0;
    let mut cut = false;
    proof {
        assert(binder@.skip(0) =~= binder@);
    }
    while start < binder.len() && !cut
        invariant
            start <= binder@.len(),
            marker@ == init_marker(),
            script@ + (if cut {
                Seq::<u8>::empty()
            } else {
                lines_before(binder@.skip(start as int), marker@)
            }) == js_str@.push(NEWLINE) + lines_before(binder@, marker@),
        decreases binder@.len() - start, if cut { 0int } else { 1int },
    {
        let ghost rest = binder@.skip(start as int);
        let mut end: usize = start;
        while end < binder.len() && binder[end] != NEWLINE
            invariant
                start <= end <= binder@.len(),
                forall|j: int| start <= j < end ==> binder@[j] != NEWLINE,
            decreases binder@.len() - end,
        {
            end += 1;
        }
        if end < binder.len() {
            end += 1;
        }
        proof {
            let k = if end > start && binder@[end - 1] == NEWLINE {
                end - 1 - start
            } else {
                end - start
            };
            assert forall|j: int| 0 <= j < k implies rest[j] != NEWLINE by {
                assert(rest[j] == binder@[start + j]);
            }
            if k < rest.len() {
                assert(rest[k] == binder@[start + k]);
            }
            lemma_first_line_len(rest, k);
            assert(first_line_len(rest) == end - start);
        }
        let line = slice_subrange(binder, start, end);
        proof {
            assert(line@ =~= rest.take(end - start));
            assert(rest.skip(end - start) =~= binder@.skip(end as int));
        }
        if contains_bytes(line, marker) {
            cut = true;
        } else {
            let ghost before = script@;
            script.extend_from_slice(line);
            proof {
                assert(before + (line@ + lines_before(binder@.skip(end as int), marker@))
                    =~= script@ + lines_before(binder@.skip(end as int), marker@));
            }
            start = end;
        }
    }
    proof {
        if !cut {
            assert(binder@.skip(start as int).len() == 0);
        }
        assert(script@ =~= js_str@.push(NEWLINE) + lines_before(binder@, marker@));
    }
    script.extend_from_slice(addendum);
    script
}

} // verus!
