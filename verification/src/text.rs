use vstd::prelude::*;
use vstd::std_specs::iter::IteratorSpec;
use vstd::string::*;

verus! {

/// Whether `c` is a single or a double quotation mark.
pub open spec fn is_quote(c: char) -> bool {
    c == '"' || c == '\''
}

/// Whether `c` is white space: a character with the Unicode property
/// `White_Space`.
pub open spec fn is_space(c: char) -> bool {
    let code = c as u32;
    ||| 0x09 <= code <= 0x0d
    ||| code == 0x20
    ||| code == 0x85
    ||| code == 0xa0
    ||| code == 0x1680
    ||| 0x2000 <= code <= 0x200a
    ||| code == 0x2028
    ||| code == 0x2029
    ||| code == 0x202f
    ||| code == 0x205f
    ||| code == 0x3000
}

/// `text` without its quotation marks, wherever they stand.
pub open spec fn without_quotes(text: Seq<char>) -> Seq<char> {
    text.filter(|c: char| !is_quote(c))
}

/// `text` without the white space it starts with.
pub open spec fn trimmed_start(text: Seq<char>) -> Seq<char>
    decreases text.len(),
{
    if text.len() > 0 && is_space(text[0]) {
        trimmed_start(text.drop_first())
    } else {
        text
    }
}

/// `text` without the white space it ends with.
pub open spec fn trimmed_end(text: Seq<char>) -> Seq<char>
    decreases text.len(),
{
    if text.len() > 0 && is_space(text.last()) {
        trimmed_end(text.drop_last())
    } else {
        text
    }
}

/// `text` without the white space around it.
pub open spec fn trimmed(text: Seq<char>) -> Seq<char> {
    trimmed_end(trimmed_start(text))
}

/// `c` in lower case where it is an upper-case letter of the basic Latin
/// alphabet, `c` itself otherwise.
pub open spec fn lower_char(c: char) -> char {
    if 'A' <= c <= 'Z' {
        ((c as u8 + 32) as u8) as char
    } else {
        c
    }
}

/// `text` with its basic Latin letters in lower case.
pub open spec fn lowered(text: Seq<char>) -> Seq<char> {
    text.map_values(|c: char| lower_char(c))
}

/// The text of a field as it is read: quotation marks taken out, then the
/// white space around what is left.
pub open spec fn cleaned(text: Seq<char>) -> Seq<char> {
    trimmed(without_quotes(text))
}

/// The characters of `text`.
pub fn chars_of(text: &str) -> (chars: Vec<char>)
    ensures
        chars@ == text@,
{
    let mut chars: Vec<char> = Vec::new();
    for c in it: text.chars()
        invariant
            it.seq() == text@,
            chars@ == text@.take(it.index()),
    {
        chars.push(c);
        proof {
            assert(chars@ =~= text@.take(it.index() + 1));
        }
    }
    proof {
        assert(chars@ =~= text@);
    }
    chars
}

/// Whether `c` is white space.
pub fn is_space_char(c: char) -> (b: bool)
    ensures
        b == is_space(c),
{
    let code = c as u32;
    (0x09 <= code && code <= 0x0d) || code == 0x20 || code == 0x85 || code == 0xa0 || code
        == 0x1680 || (0x2000 <= code && code <= 0x200a) || code == 0x2028 || code == 0x2029
        || code == 0x202f || code == 0x205f || code == 0x3000
}

/// `chars` without quotation marks.
pub fn strip_quotes(chars: &Vec<char>) -> (kept: Vec<char>)
    ensures
        kept@ == without_quotes(chars@),
{
    let mut kept: Vec<char> = Vec::new();
    let mut i: usize = 0;
    while i < chars.len()
        invariant
            i <= chars.len(),
            kept@ == without_quotes(chars@.take(i as int)),
        decreases chars.len() - i,
    {
        let c = chars[i];
        proof {
            reveal(Seq::filter);
            assert(chars@.take(i + 1).drop_last() =~= chars@.take(i as int));
        }
        if c != '"' && c != '\'' {
            kept.push(c);
        }
        i += 1;
    }
    proof {
        assert(chars@.take(i as int) =~= chars@);
    }
    kept
}

proof fn lemma_trimmed_start_skip(text: Seq<char>, n: int)
    requires
        0 <= n <= text.len(),
        forall|j: int| 0 <= j < n ==> is_space(text[j]),
    ensures
        trimmed_start(text) == trimmed_start(text.skip(n)),
    decreases n,
{
    if n > 0 {
        assert(text.drop_first().skip(n - 1) =~= text.skip(n));
        lemma_trimmed_start_skip(text.drop_first(), n - 1);
    } else {
        assert(text.skip(0) =~= text);
    }
}

proof fn lemma_trimmed_end_take(text: Seq<char>, n: int)
    requires
        0 <= n <= text.len(),
        forall|j: int| n <= j < text.len() ==> is_space(text[j]),
    ensures
        trimmed_end(text) == trimmed_end(text.take(n)),
    decreases text.len() - n,
{
    if n < text.len() {
        assert(text.drop_last().take(n) =~= text.take(n));
        lemma_trimmed_end_take(text.drop_last(), n);
    } else {
        assert(text.take(n) =~= text);
    }
}

/// `chars` without the white space around it.
pub fn trim(chars: &Vec<char>) -> (kept: Vec<char>)
    ensures
        kept@ == trimmed(chars@),
{
    let mut start: usize = 0;
    while start < chars.len() && is_space_char(chars[start])
        invariant
            start <= chars.len(),
            forall|j: int| 0 <= j < start ==> is_space(chars@[j]),
        decreases chars.len() - start,
    {
        start += 1;
    }
    let mut end: usize = chars.len();
    while end > start && is_space_char(chars[end - 1])
        invariant
            start <= end <= chars.len(),
            forall|j: int| end <= j < chars.len() ==> is_space(chars@[j]),
        decreases end,
    {
        end -= 1;
    }
    let mut kept: Vec<char> = Vec::new();
    let mut i: usize = start;
    while i < end
        invariant
            start <= i <= end <= chars.len(),
            kept@ == chars@.subrange(start as int, i as int),
        decreases end - i,
    {
        kept.push(chars[i]);
        proof {
            assert(kept@ =~= chars@.subrange(start as int, i + 1));
        }
        i += 1;
    }
    proof {
        let rest = chars@.skip(start as int);
        lemma_trimmed_start_skip(chars@, start as int);
        assert(trimmed_start(rest) == rest);
        assert forall|j: int| end - start <= j < rest.len() implies is_space(rest[j]) by {
            assert(rest[j] == chars@[j + start]);
        }
        lemma_trimmed_end_take(rest, end - start);
        assert(rest.take(end - start) =~= kept@);
        assert(trimmed_end(kept@) == kept@);
    }
    kept
}

/// `chars` with its basic Latin letters in lower case.
pub fn to_lower(chars: &Vec<char>) -> (low: Vec<char>)
    ensures
        low@ == lowered(chars@),
{
    let mut low: Vec<char> = Vec::new();
    let mut i: usize = 0;
    while i < chars.len()
        invariant
            i <= chars.len(),
            low@ == lowered(chars@.take(i as int)),
        decreases chars.len() - i,
    {
        let c = chars[i];
        let l = if 'A' <= c && c <= 'Z' {
            (c as u8 + 32) as char
        } else {
            c
        };
        low.push(l);
        proof {
            assert(low@ =~= lowered(chars@.take(i + 1)));
        }
        i += 1;
    }
    proof {
        assert(chars@.take(i as int) =~= chars@);
    }
    low
}

/// Whether `chars` spells exactly `word`.
pub fn spells(chars: &Vec<char>, word: &str) -> (b: bool)
    ensures
        b == (chars@ == word@),
{
    let letters = chars_of(word);
    if letters.len() != chars.len() {
        return false;
    }
    let mut i: usize = 0;
    while i < chars.len()
        invariant
            i <= chars.len(),
            letters@ == word@,
            letters.len() == chars.len(),
            chars@.take(i as int) == letters@.take(i as int),
        decreases chars.len() - i,
    {
        if chars[i] != letters[i] {
            proof {
                assert(chars@[i as int] != letters@[i as int]);
            }
            return false;
        }
        proof {
            assert(chars@.take(i + 1) =~= chars@.take(i as int).push(chars@[i as int]));
            assert(letters@.take(i + 1) =~= letters@.take(i as int).push(letters@[i as int]));
        }
        i += 1;
    }
    proof {
        assert(chars@.take(i as int) =~= chars@);
        assert(letters@.take(i as int) =~= letters@);
    }
    true
}

} // verus!
