//! Text rules for nicknames and menu input: Unicode trimming, case-folded ordering,
//! and the alphanumeric input buffers.
use vstd::prelude::*;
use vstd::string::StrSliceExecFns;

verus! {

/// The Unicode `White_Space` property: the characters that `str::trim` strips.
pub open spec fn white_space(c: char) -> bool {
    ||| ('\u{9}' <= c && c <= '\u{d}')
    ||| c == ' '
    ||| c == '\u{85}'
    ||| c == '\u{a0}'
    ||| c == '\u{1680}'
    ||| ('\u{2000}' <= c && c <= '\u{200a}')
    ||| c == '\u{2028}'
    ||| c == '\u{2029}'
    ||| c == '\u{202f}'
    ||| c == '\u{205f}'
    ||| c == '\u{3000}'
}

/// `s` without its leading white space.
pub open spec fn trim_start(s: Seq<char>) -> Seq<char>
    decreases s.len(),
{
    if s.len() > 0 && white_space(s[0]) {
        trim_start(s.drop_first())
    } else {
        s
    }
}

/// `s` without its trailing white space.
pub open spec fn trim_end(s: Seq<char>) -> Seq<char>
    decreases s.len(),
{
    if s.len() > 0 && white_space(s.last()) {
        trim_end(s.drop_last())
    } else {
        s
    }
}

/// `s` without leading and trailing white space.
pub open spec fn trimmed(s: Seq<char>) -> Seq<char> {
    trim_end(trim_start(s))
}

/// `str::trim`: the text with leading and trailing Unicode white space removed.
///
/// Trusted: std documents `trim` as removing leading and trailing characters with the
/// Unicode `White_Space` property, which `white_space` lists.
#[verifier::external_body]
pub(crate) fn trim(s: &str) -> (r: &str)
    ensures
        r@ == trimmed(s@),
{
    s.trim()
}

/// What `str::to_lowercase` makes of a text (Unicode lowercase mapping, including the
/// context-dependent final sigma).
pub uninterp spec fn lowercase(s: Seq<char>) -> Seq<char>;

/// `str::to_lowercase`.
///
/// Trusted: the result is named `lowercase` of the input; it depends on the text alone
/// (std's fixed Unicode tables, no locale). Nothing else is stated of it.
#[verifier::external_body]
pub(crate) fn to_lowercase(s: &str) -> (r: String)
    ensures
        r@ == lowercase(s@),
{
    s.to_lowercase()
}

/// The characters of a text.
pub fn chars_of(s: &str) -> (v: Vec<char>)
    ensures
        v@ == s@,
{
    let n = s.unicode_len();
    let mut v: Vec<char> = Vec::new();
    let mut i: usize = 0;
    while i < n
        invariant
            n == s@.len(),
            i <= n,
            v@ == s@.subrange(0, i as int),
        decreases n - i,
    {
        let c = s.get_char(i);
        v.push(c);
        i += 1;
        assert(v@ =~= s@.subrange(0, i as int));
    }
    assert(v@ =~= s@);
    v
}

/// Two texts are equal.
pub fn same_text(a: &str, b: &str) -> (r: bool)
    ensures
        r == (a@ == b@),
{
    a.to_owned() == b.to_owned()
}

/// `a` comes strictly before `b` in lexicographic order of characters (the order of `str`).
pub open spec fn lex_lt(a: Seq<char>, b: Seq<char>) -> bool
    decreases a.len(),
{
    if a.len() == 0 {
        b.len() > 0
    } else if b.len() == 0 {
        false
    } else if a[0] != b[0] {
        a[0] < b[0]
    } else {
        lex_lt(a.drop_first(), b.drop_first())
    }
}

pub proof fn lemma_lex_irreflexive(a: Seq<char>)
    ensures
        !lex_lt(a, a),
    decreases a.len(),
{
    if a.len() > 0 {
        lemma_lex_irreflexive(a.drop_first());
    }
}

pub proof fn lemma_lex_trans(a: Seq<char>, b: Seq<char>, c: Seq<char>)
    requires
        lex_lt(a, b),
        lex_lt(b, c),
    ensures
        lex_lt(a, c),
    decreases a.len(),
{
    if a.len() > 0 && b.len() > 0 && c.len() > 0 && a[0] == b[0] && b[0] == c[0] {
        lemma_lex_trans(a.drop_first(), b.drop_first(), c.drop_first());
    }
}

pub proof fn lemma_lex_total(a: Seq<char>, b: Seq<char>)
    ensures
        a == b || lex_lt(a, b) || lex_lt(b, a),
    decreases a.len(),
{
    if a.len() == 0 && b.len() == 0 {
        assert(a =~= b);
    } else if a.len() > 0 && b.len() > 0 && a[0] == b[0] {
        lemma_lex_total(a.drop_first(), b.drop_first());
        if a.drop_first() == b.drop_first() {
            assert(a.drop_first().len() == b.drop_first().len());
            assert(a.len() == b.len());
            assert forall|i: int| 0 <= i < a.len() implies a[i] == b[i] by {
                if i > 0 {
                    assert(a[i] == a.drop_first()[i - 1]);
                    assert(b[i] == b.drop_first()[i - 1]);
                }
            }
            assert(a =~= b);
        }
    }
}

pub proof fn lemma_lex_asym(a: Seq<char>, b: Seq<char>)
    requires
        lex_lt(a, b),
    ensures
        !lex_lt(b, a),
    decreases a.len(),
{
    if a.len() > 0 && b.len() > 0 && a[0] == b[0] {
        lemma_lex_asym(a.drop_first(), b.drop_first());
    }
}

/// Lexicographic comparison of character sequences.
pub fn lex_less(a: &Vec<char>, b: &Vec<char>) -> (r: bool)
    ensures
        r == lex_lt(a@, b@),
{
    let mut i: usize = 0;
    assert(a@.skip(0) =~= a@);
    assert(b@.skip(0) =~= b@);
    while i < a.len() && i < b.len() && a[i] == b[i]
        invariant
            i <= a@.len(),
            i <= b@.len(),
            a@.subrange(0, i as int) == b@.subrange(0, i as int),
            lex_lt(a@, b@) == lex_lt(a@.skip(i as int), b@.skip(i as int)),
        decreases a@.len() - i,
    {
        proof {
            assert(a@.skip(i as int).drop_first() =~= a@.skip(i as int + 1));
            assert(b@.skip(i as int).drop_first() =~= b@.skip(i as int + 1));
            assert(a@.subrange(0, i as int + 1) =~= a@.subrange(0, i as int).push(a@[i as int]));
            assert(b@.subrange(0, i as int + 1) =~= b@.subrange(0, i as int).push(b@[i as int]));
        }
        i += 1;
    }
    if i == a.len() {
        assert(a@.skip(i as int).len() == 0);
        i < b.len()
    } else if i == b.len() {
        assert(b@.skip(i as int).len() == 0);
        false
    } else {
        proof {
            assert(a@.skip(i as int)[0] == a@[i as int]);
            assert(b@.skip(i as int)[0] == b@[i as int]);
        }
        a[i] < b[i]
    }
}

/// Longest nickname or password the input buffers accept.
pub const INPUT_MAX_LEN: usize = 32;

/// An ASCII letter or digit.
pub open spec fn ascii_alnum(c: char) -> bool {
    ('0' <= c && c <= '9') || ('a' <= c && c <= 'z') || ('A' <= c && c <= 'Z')
}

pub fn is_ascii_alphanumeric(c: char) -> (r: bool)
    ensures
        r == ascii_alnum(c),
{
    ('0' <= c && c <= '9') || ('a' <= c && c <= 'z') || ('A' <= c && c <= 'Z')
}

/// Typing into a nickname/password buffer: an ASCII letter or digit is appended while the
/// buffer holds fewer than 32 characters; anything else is ignored.
pub fn push_input_char(buffer: &mut Vec<char>, c: char)
    ensures
        final(buffer)@ == if ascii_alnum(c) && old(buffer)@.len() < INPUT_MAX_LEN {
            old(buffer)@.push(c)
        } else {
            old(buffer)@
        },
{
    if is_ascii_alphanumeric(c) && buffer.len() < INPUT_MAX_LEN {
        buffer.push(c);
    }
}

/// Backspace in an input buffer: the last character goes, if there is one.
pub fn pop_input_char(buffer: &mut Vec<char>)
    ensures
        final(buffer)@ == if old(buffer)@.len() > 0 {
            old(buffer)@.drop_last()
        } else {
            old(buffer)@
        },
{
    if buffer.len() > 0 {
        buffer.pop();
    }
}

/// The buffer after typing `chars` in order: each is appended as `push_input_char` does.
pub open spec fn typed_into(buf: Seq<char>, chars: Seq<char>) -> Seq<char>
    decreases chars.len(),
{
    if chars.len() == 0 {
        buf
    } else {
        let prev = typed_into(buf, chars.drop_last());
        let c = chars.last();
        if ascii_alnum(c) && prev.len() < INPUT_MAX_LEN {
            prev.push(c)
        } else {
            prev
        }
    }
}

/// A buffer of at most 32 ASCII letters and digits.
pub open spec fn input_ok(buf: Seq<char>) -> bool {
    &&& buf.len() <= INPUT_MAX_LEN
    &&& forall|i: int| 0 <= i < buf.len() ==> ascii_alnum(#[trigger] buf[i])
}

/// Typing keeps a buffer to at most 32 ASCII letters and digits, and only ever appends.
pub proof fn lemma_typed_into_ok(buf: Seq<char>, chars: Seq<char>)
    requires
        input_ok(buf),
    ensures
        input_ok(typed_into(buf, chars)),
        typed_into(buf, chars).len() >= buf.len(),
        typed_into(buf, chars).take(buf.len() as int) == buf,
    decreases chars.len(),
{
    if chars.len() > 0 {
        lemma_typed_into_ok(buf, chars.drop_last());
        let prev = typed_into(buf, chars.drop_last());
        assert(prev.push(chars.last()).take(buf.len() as int) == prev.take(buf.len() as int));
    }
}

/// Types `chars` into `buffer` in order; returns whether any was taken (each taken key
/// clicks).
pub fn type_chars(buffer: &mut Vec<char>, chars: &Vec<char>) -> (taken: bool)
    ensures
        final(buffer)@ == typed_into(old(buffer)@, chars@),
        taken == (final(buffer)@.len() != old(buffer)@.len()),
{
    let ghost start = buffer@;
    let start_len = buffer.len();
    let mut i: usize = 0;
    while i < chars.len()
        invariant
            i <= chars@.len(),
            buffer@ == typed_into(start, chars@.take(i as int)),
            buffer@.len() >= start.len(),
            start_len == start.len(),
        decreases chars@.len() - i,
    {
        assert(chars@.take(i + 1).drop_last() == chars@.take(i as int));
        push_input_char(buffer, chars[i]);
        i = i + 1;
    }
    assert(chars@.take(i as int) == chars@);
    buffer.len() != start_len
}

/// `buf` after typing `chars` and then a Backspace, if pressed.
pub open spec fn edited(buf: Seq<char>, chars: Seq<char>, backspace: bool) -> Seq<char> {
    let b1 = typed_into(buf, chars);
    if backspace && b1.len() > 0 {
        b1.drop_last()
    } else {
        b1
    }
}

/// Whether that edit makes a sound: a character was taken or one was erased.
pub open spec fn edit_clicks(buf: Seq<char>, chars: Seq<char>, backspace: bool) -> bool {
    let b1 = typed_into(buf, chars);
    b1.len() != buf.len() || (backspace && b1.len() > 0)
}

/// Editing keeps a buffer to at most 32 ASCII letters and digits.
pub proof fn lemma_edited_ok(buf: Seq<char>, chars: Seq<char>, backspace: bool)
    requires
        input_ok(buf),
    ensures
        input_ok(edited(buf, chars, backspace)),
{
    lemma_typed_into_ok(buf, chars);
    let b1 = typed_into(buf, chars);
    if b1.len() > 0 {
        assert(input_ok(b1.drop_last()));
    }
}

/// Types `chars` into `buf`, then erases one character if `backspace`; returns whether a
/// click sounds.
pub fn edit_input(buf: &mut Vec<char>, chars: &Vec<char>, backspace: bool) -> (click: bool)
    ensures
        final(buf)@ == edited(old(buf)@, chars@, backspace),
        click == edit_clicks(old(buf)@, chars@, backspace),
{
    let typed = type_chars(buf, chars);
    let erased = backspace && buf.len() > 0;
    if backspace {
        pop_input_char(buf);
    }
    typed || erased
}

/// Characters that some platforms deliver for Backspace and Delete.
pub open spec fn erase_char(c: char) -> bool {
    c == '\u{8}' || c == '\u{7f}'
}

/// The name written on the map after the character events `chars`: an erase character drops
/// the last letter (if any), an ASCII letter or digit is appended while fewer than 32 are
/// written, anything else is ignored.
pub open spec fn typed_name(buf: Seq<char>, chars: Seq<char>) -> Seq<char>
    decreases chars.len(),
{
    if chars.len() == 0 {
        buf
    } else {
        let prev = typed_name(buf, chars.drop_last());
        let c = chars.last();
        if erase_char(c) {
            if prev.len() > 0 {
                prev.drop_last()
            } else {
                prev
            }
        } else if ascii_alnum(c) && prev.len() < INPUT_MAX_LEN {
            prev.push(c)
        } else {
            prev
        }
    }
}

/// Whether one of the character events erased a letter.
pub open spec fn name_erased(buf: Seq<char>, chars: Seq<char>) -> bool
    decreases chars.len(),
{
    if chars.len() == 0 {
        false
    } else {
        name_erased(buf, chars.drop_last()) || (erase_char(chars.last()) && typed_name(
            buf,
            chars.drop_last(),
        ).len() > 0)
    }
}

/// Writing keeps the name to at most 32 ASCII letters and digits.
pub proof fn lemma_typed_name_ok(buf: Seq<char>, chars: Seq<char>)
    requires
        input_ok(buf),
    ensures
        input_ok(typed_name(buf, chars)),
    decreases chars.len(),
{
    if chars.len() > 0 {
        lemma_typed_name_ok(buf, chars.drop_last());
        let prev = typed_name(buf, chars.drop_last());
        if prev.len() > 0 {
            assert(input_ok(prev.drop_last()));
        }
    }
}

/// Applies the character events of a frame to the name written on the map; returns whether
/// a letter was erased.
pub fn type_name_chars(buffer: &mut Vec<char>, chars: &Vec<char>) -> (erased: bool)
    ensures
        final(buffer)@ == typed_name(old(buffer)@, chars@),
        erased == name_erased(old(buffer)@, chars@),
{
    let ghost start = buffer@;
    let mut erased = false;
    let mut i: usize = 0;
    while i < chars.len()
        invariant
            i <= chars@.len(),
            buffer@ == typed_name(start, chars@.take(i as int)),
            erased == name_erased(start, chars@.take(i as int)),
        decreases chars@.len() - i,
    {
        assert(chars@.take(i + 1).drop_last() == chars@.take(i as int));
        let c = chars[i];
        if c == '\u{8}' || c == '\u{7f}' {
            if buffer.len() > 0 {
                buffer.pop();
                erased = true;
            }
        } else {
            push_input_char(buffer, c);
        }
        i = i + 1;
    }
    assert(chars@.take(i as int) == chars@);
    erased
}

} // verus!
