use vstd::prelude::*;
use crate::text::{hex_text, hexadecimal, push_text};

verus! {

/// Calls `sanitize_filename::sanitize_with_options` with exactly these
/// options. What it returns is fixed by the four arguments and is named
/// `sanitized_text`; trusted beside that is only that a truncated text has
/// at most 255 bytes, and so at most 255 characters.
#[verifier::external_body]
fn sanitized(name: &str, replacement: &str, windows: bool, truncate: bool) -> (r: String)
    ensures
        r@ == sanitized_text(name@, replacement@, windows, truncate),
        truncate ==> r@.len() <= 255,
{
    sanitize_filename::sanitize_with_options(
        name,
        sanitize_filename::Options { windows, truncate, replacement },
    )
}

/// The name of a kernel and the number of its instance, before anything
/// is replaced in it.
pub open spec fn raw_stem_text(name: Seq<char>, id: u64) -> Seq<char> {
    name + seq!['_'] + hex_text(id as nat)
}

/// Puts the number of a kernel's instance, in hexadecimal digits, behind
/// the kernel's name and a `_`.
pub fn raw_stem(name: &str, id: u64) -> (r: String)
    ensures
        r@ == raw_stem_text(name@, id),
{
    let mut out = String::new();
    push_text(&mut out, name);
    push_text(&mut out, "_");
    push_text(&mut out, hexadecimal(id).as_str());
    proof {
        reveal_strlit("_");
        assert("_"@ =~= seq!['_']);
        assert(out@ =~= raw_stem_text(name@, id));
    }
    out
}

/// The name under which a kernel is written out: its raw stem made safe
/// for a file system, or for Windows too where `windows` is set, with `_`
/// for what is refused, and cut to at most 255 characters.
pub fn file_stem(name: &str, id: u64, windows: bool) -> (r: String)
    ensures
        r@ == stem_text(name@, id, windows),
        r@.len() <= 255,
{
    let raw = raw_stem(name, id);
    sanitized(raw.as_str(), "_", windows, true)
}

/// The path of a file in `dir` with the given stem and ending.
pub open spec fn path_text(dir: Seq<char>, stem: Seq<char>, ending: Seq<char>) -> Seq<char> {
    dir + seq!['/'] + stem + ending
}

/// The two files that hold a kernel in the directory `dir`: the compiled
/// words and the text of the optimizer.
pub fn dump_paths(dir: &str, stem: &str) -> (r: (String, String))
    ensures
        r.0@ == path_text(dir@, stem@, ".spv"@),
        r.1@ == path_text(dir@, stem@, ".ir.txt"@),
{
    proof {
        reveal_strlit("/");
        assert("/"@ =~= seq!['/']);
    }
    let mut binary = String::new();
    push_text(&mut binary, dir);
    push_text(&mut binary, "/");
    push_text(&mut binary, stem);
    push_text(&mut binary, ".spv");
    assert(binary@ =~= path_text(dir@, stem@, ".spv"@));
    let mut listing = String::new();
    push_text(&mut listing, dir);
    push_text(&mut listing, "/");
    push_text(&mut listing, stem);
    push_text(&mut listing, ".ir.txt");
    assert(listing@ =~= path_text(dir@, stem@, ".ir.txt"@));
    (binary, listing)
}

/// Byte `b` (0 to 3, lowest first) of a word.
pub open spec fn word_byte(w: u32, b: int) -> u8 {
    if b == 0 {
        (w % 256) as u8
    } else if b == 1 {
        (w / 256 % 256) as u8
    } else if b == 2 {
        (w / 65536 % 256) as u8
    } else {
        (w / 16777216) as u8
    }
}

/// The words of a kernel as bytes, each word lowest byte first.
pub fn kernel_bytes(words: &Vec<u32>) -> (r: Vec<u8>)
    ensures
        r@.len() == 4 * words@.len(),
        forall|i: int| 0 <= i < r@.len() ==> #[trigger] r@[i] == word_byte(words@[i / 4], i % 4),
{
    let mut out: Vec<u8> = Vec::new();
    let mut k: usize = 0;
    while k < words.len()
        invariant
            k <= words@.len(),
            out@.len() == 4 * k,
            forall|i: int| 0 <= i < out@.len() ==> #[trigger] out@[i] == word_byte(words@[i / 4], i % 4),
        decreases words@.len() - k,
    {
        let w: u32 = words[k];
        out.push((w % 256) as u8);
        out.push((w / 256 % 256) as u8);
        out.push((w / 65536 % 256) as u8);
        out.push((w / 16777216) as u8);
        k += 1;
    }
    out
}

/// The place of the first `c` in `s` at or behind `from`; the length of
/// `s` where there is none.
pub open spec fn first_at(s: Seq<char>, c: char, from: int) -> int
    decreases s.len() - from,
{
    if from >= s.len() {
        s.len() as int
    } else if s[from] == c {
        from
    } else {
        first_at(s, c, from + 1)
    }
}

/// Where the text behind the last `::` before `to` starts, read from `i`
/// on, left to right, with `start` found so far.
pub open spec fn tail_start(s: Seq<char>, i: int, to: int, start: int) -> int
    decreases to - i,
{
    if i + 1 >= to {
        start
    } else if s[i] == ':' && s[i + 1] == ':' {
        tail_start(s, i + 2, to, i + 2)
    } else {
        tail_start(s, i + 1, to, start)
    }
}

/// The word that ends the name of a runtime.
pub open spec fn runtime_word() -> Seq<char> {
    seq!['R', 'u', 'n', 't', 'i', 'm', 'e']
}

/// The part of `s` from `from` to `to` ends with the word `Runtime`.
pub open spec fn runtime_suffix(s: Seq<char>, from: int, to: int) -> bool {
    to - from >= 7 && s.subrange(to - 7, to) == runtime_word()
}

/// The short name of a kernel from the part of its full name that starts
/// at `from`. The full name is read as parts between `<`. Reading stops at
/// the first part that ends with `Runtime`. Of every part before it, what
/// stands before its first `>` and there behind its last `::` is kept,
/// and the kept texts are joined by `_`.
pub open spec fn short_from(s: Seq<char>, from: int, first: bool) -> Seq<char>
    decreases s.len() - from,
{
    let to = first_at(s, '<', from);
    if from > s.len() || to < from || runtime_suffix(s, from, to) {
        Seq::<char>::empty()
    } else {
        let close = first_at(s, '>', from);
        let cut = if close < to { close } else { to };
        let part = s.subrange(tail_start(s, from, cut, from), cut);
        let sep = if first { Seq::<char>::empty() } else { seq!['_'] };
        let rest = if to < s.len() { short_from(s, to + 1, false) } else { Seq::<char>::empty() };
        sep + part + rest
    }
}

/// The place of the first `c` of the name at or behind `from`.
fn find_first(name: &str, c: char, from: usize, len: usize) -> (r: usize)
    requires
        len == name@.len(),
        from <= len,
    ensures
        r == first_at(name@, c, from as int),
        from <= r <= len,
{
    let mut i: usize = from;
    while i < len
        invariant
            len == name@.len(),
            from <= i <= len,
            first_at(name@, c, from as int) == first_at(name@, c, i as int),
        decreases len - i,
    {
        if name.get_char(i) == c {
            return i;
        }
        i += 1;
    }
    i
}

/// Where the text behind the last `::` of the name between `from` and
/// `to` starts.
fn find_tail(name: &str, from: usize, to: usize) -> (r: usize)
    requires
        from <= to <= name@.len(),
    ensures
        r == tail_start(name@, from as int, to as int, from as int),
        from <= r <= to,
{
    let mut i: usize = from;
    let mut start: usize = from;
    while i < to && i + 1 < to
        invariant
            from <= start <= i <= to <= name@.len(),
            tail_start(name@, from as int, to as int, from as int) == tail_start(
                name@,
                i as int,
                to as int,
                start as int,
            ),
        decreases to - i,
    {
        if name.get_char(i) == ':' && name.get_char(i + 1) == ':' {
            i += 2;
            start = i;
        } else {
            i += 1;
        }
    }
    start
}

/// The part of the name from `from` to `to` ends with `Runtime`.
fn has_runtime_suffix(name: &str, from: usize, to: usize) -> (r: bool)
    requires
        from <= to <= name@.len(),
    ensures
        r == runtime_suffix(name@, from as int, to as int),
{
    if to - from < 7 {
        return false;
    }
    let base: usize = to - 7;
    let r = name.get_char(base) == 'R' && name.get_char(base + 1) == 'u' && name.get_char(base + 2)
        == 'n' && name.get_char(base + 3) == 't' && name.get_char(base + 4) == 'i' && name.get_char(
        base + 5,
    ) == 'm' && name.get_char(base + 6) == 'e';
    proof {
        let tail = name@.subrange(base as int, to as int);
        if r {
            assert(tail =~= runtime_word());
        } else {
            assert(tail[0] == name@[base as int]);
            assert(tail[1] == name@[base + 1]);
            assert(tail[2] == name@[base + 2]);
            assert(tail[3] == name@[base + 3]);
            assert(tail[4] == name@[base + 4]);
            assert(tail[5] == name@[base + 5]);
            assert(tail[6] == name@[base + 6]);
        }
    }
    r
}

/// The short name of a kernel: the last names of the types in its full
/// name, up to the runtime, joined by `_`.
pub fn short_name(name: &str) -> (r: String)
    ensures
        r@ == short_from(name@, 0, true),
{
    let len = name.unicode_len();
    let mut out = String::new();
    let mut from: usize = 0;
    let mut first = true;
    let mut done = false;
    proof {
        reveal_strlit("_");
        assert("_"@ =~= seq!['_']);
        assert(out@ + short_from(name@, 0, true) =~= short_from(name@, 0, true));
    }
    while !done
        invariant
            len == name@.len(),
            from <= len,
            "_"@ == seq!['_'],
            !done ==> out@ + short_from(name@, from as int, first) == short_from(name@, 0, true),
            done ==> out@ == short_from(name@, 0, true),
            done ==> from == len,
        decreases len - from + (if done { 0int } else { 1int }),
    {
        let ghost before = out@;
        let to = find_first(name, '<', from, len);
        if has_runtime_suffix(name, from, to) {
            proof {
                assert(before + Seq::<char>::empty() =~= before);
            }
            from = len;
            done = true;
        } else {
            let close = find_first(name, '>', from, len);
            let cut = if close < to { close } else { to };
            let start = find_tail(name, from, cut);
            if !first {
                push_text(&mut out, "_");
            }
            push_text(&mut out, name.substring_char(start, cut));
            let ghost sep = if first { Seq::<char>::empty() } else { seq!['_'] };
            let ghost part = name@.subrange(start as int, cut as int);
            if to < len {
                proof {
                    let rest = short_from(name@, to + 1, false);
                    assert(out@ + rest =~= before + (sep + part + rest));
                }
                from = to + 1;
                first = false;
            } else {
                proof {
                    assert(out@ =~= before + (sep + part + Seq::<char>::empty()));
                }
                from = len;
                done = true;
            }
        }
    }
    out
}

/// The file stem of the short name of a kernel with this full name.
pub fn dump_name(name: &str, id: u64, windows: bool) -> (r: String)
    ensures
        r@ == stem_text(short_from(name@, 0, true), id, windows),
        r@.len() <= 255,
{
    let short = short_name(name);
    file_stem(short.as_str(), id, windows)
}

/// What `sanitize_filename::sanitize_with_options` makes of a name with
/// the given replacement, with or without the rules of Windows, and with
/// or without the cut to 255 bytes.
pub uninterp spec fn sanitized_text(name: Seq<char>, replacement: Seq<char>, windows: bool, truncate: bool) -> Seq<char>;

/// The file stem of a kernel with this name and number: its raw stem,
/// sanitized with `_` as the replacement and cut.
pub open spec fn stem_text(name: Seq<char>, id: u64, windows: bool) -> Seq<char> {
    sanitized_text(raw_stem_text(name, id), "_"@, windows, true)
}

} // verus!
