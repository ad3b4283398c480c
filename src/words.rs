//! The set of banned words, read from a list with one word per line.
use vstd::prelude::*;
use vstd::slice::slice_to_vec;
use vstd::utf8::encode_utf8;

verus! {

/// Whether a character has Unicode's White_Space property, as
/// char::is_whitespace tests it: the whitespace that str::trim removes.
pub open spec fn is_whitespace(c: char) -> bool {
    let u = c as u32;
    (0x9 <= u <= 0xd) || u == 0x20 || u == 0x85 || u == 0xa0 || u == 0x1680 || (0x2000 <= u
        <= 0x200a) || u == 0x2028 || u == 0x2029 || u == 0x202f || u == 0x205f || u == 0x3000
}

/// A line without its leading and trailing whitespace.
pub open spec fn trimmed(s: Seq<char>) -> Seq<char>
    decreases s.len(),
{
    if s.len() > 0 && is_whitespace(s[0]) {
        trimmed(s.drop_first())
    } else if s.len() > 0 && is_whitespace(s.last()) {
        trimmed(s.drop_last())
    } else {
        s
    }
}

/// Relies on str::trim, which removes the leading and trailing characters
/// that char::is_whitespace accepts.
#[verifier::external_body]
fn trim_line(s: &str) -> (r: &str)
    ensures
        r@ == trimmed(s@),
        r@.len() == 0 ==> forall|i: int| 0 <= i < s@.len() ==> is_whitespace(#[trigger] s@[i]),
{
    s.trim()
}

/// A line that holds nothing but whitespace.
pub open spec fn is_blank(line: Seq<char>) -> bool {
    trimmed(line).len() == 0
}

/// The word a line gives, as bytes.
pub open spec fn word_of(line: Seq<char>) -> Seq<u8> {
    encode_utf8(trimmed(line))
}

/// The words that a list of lines gives: each line trimmed, blank ones left out.
pub open spec fn words_of(lines: Seq<Seq<char>>) -> Set<Seq<u8>>
    decreases lines.len(),
{
    if lines.len() == 0 {
        Set::empty()
    } else if is_blank(lines.last()) {
        words_of(lines.drop_last())
    } else {
        words_of(lines.drop_last()).insert(word_of(lines.last()))
    }
}

pub open spec fn lines_view(lines: Seq<String>) -> Seq<Seq<char>> {
    lines.map_values(|l: String| l@)
}

proof fn lemma_whitespace_only_is_blank(s: Seq<char>)
    requires
        forall|i: int| 0 <= i < s.len() ==> is_whitespace(#[trigger] s[i]),
    ensures
        is_blank(s),
    decreases s.len(),
{
    if s.len() > 0 {
        assert(is_whitespace(s[0]));
        let t = s.drop_first();
        assert forall|i: int| 0 <= i < t.len() implies is_whitespace(#[trigger] t[i]) by {
            assert(t[i] == s[i + 1]);
        }
        lemma_whitespace_only_is_blank(t);
    }
}

proof fn lemma_word_not_empty(line: Seq<char>)
    requires
        !is_blank(line),
    ensures
        word_of(line).len() > 0,
{
    let t = trimmed(line);
    assert(encode_utf8(t) == vstd::utf8::encode_scalar(t[0] as u32) + encode_utf8(t.drop_first()));
}

proof fn lemma_words_of_members(lines: Seq<Seq<char>>, w: Seq<u8>)
    ensures
        words_of(lines).contains(w) <==> exists|j: int|
            0 <= j < lines.len() && !is_blank(lines[j]) && #[trigger] word_of(lines[j]) == w,
    decreases lines.len(),
{
    if lines.len() > 0 {
        let rest = lines.drop_last();
        lemma_words_of_members(rest, w);
        if exists|j: int| 0 <= j < rest.len() && !is_blank(rest[j]) && #[trigger] word_of(rest[j]) == w {
            let j = choose|j: int| 0 <= j < rest.len() && !is_blank(rest[j]) && #[trigger] word_of(rest[j]) == w;
            assert(lines[j] == rest[j]);
        }
        if exists|j: int| 0 <= j < lines.len() && !is_blank(lines[j]) && #[trigger] word_of(lines[j]) == w {
            let j = choose|j: int| 0 <= j < lines.len() && !is_blank(lines[j]) && #[trigger] word_of(lines[j]) == w;
            if j < rest.len() {
                assert(rest[j] == lines[j]);
            }
        }
    }
}

/// Every word comes from a line that is not blank, no word is empty, and a
/// line that holds only whitespace adds nothing: the list without it gives
/// the same set.
pub proof fn blank_lines_never_words(lines: Seq<Seq<char>>, i: int)
    requires
        0 <= i < lines.len(),
        forall|k: int| 0 <= k < lines[i].len() ==> is_whitespace(#[trigger] lines[i][k]),
    ensures
        forall|w: Seq<u8>| #[trigger] words_of(lines).contains(w) ==> exists|j: int|
            0 <= j < lines.len() && !is_blank(lines[j]) && word_of(lines[j]) == w,
        !words_of(lines).contains(Seq::<u8>::empty()),
        words_of(lines) == words_of(lines.remove(i)),
{
    lemma_whitespace_only_is_blank(lines[i]);
    let short = lines.remove(i);
    assert forall|w: Seq<u8>| #[trigger] words_of(lines).contains(w) implies exists|j: int|
        0 <= j < lines.len() && !is_blank(lines[j]) && word_of(lines[j]) == w by {
        lemma_words_of_members(lines, w);
    }
    lemma_words_of_members(lines, Seq::<u8>::empty());
    if words_of(lines).contains(Seq::<u8>::empty()) {
        let j = choose|j: int| 0 <= j < lines.len() && !is_blank(lines[j]) && #[trigger] word_of(lines[j]) == Seq::<u8>::empty();
        lemma_word_not_empty(lines[j]);
    }
    assert forall|w: Seq<u8>| words_of(lines).contains(w) <==> words_of(short).contains(w) by {
        lemma_words_of_members(lines, w);
        lemma_words_of_members(short, w);
        if exists|j: int| 0 <= j < lines.len() && !is_blank(lines[j]) && #[trigger] word_of(lines[j]) == w {
            let j = choose|j: int| 0 <= j < lines.len() && !is_blank(lines[j]) && #[trigger] word_of(lines[j]) == w;
            if j < i {
                assert(short[j] == lines[j]);
            } else {
                assert(j != i);
                assert(short[j - 1] == lines[j]);
            }
        }
        if exists|j: int| 0 <= j < short.len() && !is_blank(short[j]) && #[trigger] word_of(short[j]) == w {
            let j = choose|j: int| 0 <= j < short.len() && !is_blank(short[j]) && #[trigger] word_of(short[j]) == w;
            if j < i {
                assert(short[j] == lines[j]);
            } else {
                assert(short[j] == lines[j + 1]);
            }
        }
    }
    assert(words_of(lines) =~= words_of(short));
}

/// A list whose lines all hold only whitespace (or nothing) gives no word.
pub proof fn blank_list_gives_no_words(lines: Seq<Seq<char>>)
    requires
        forall|i: int, k: int|
            0 <= i < lines.len() && 0 <= k < lines[i].len() ==> is_whitespace(#[trigger] lines[i][k]),
    ensures
        words_of(lines).is_empty(),
    decreases lines.len(),
{
    if lines.len() > 0 {
        let rest = lines.drop_last();
        assert forall|i: int, k: int| 0 <= i < rest.len() && 0 <= k < rest[i].len() implies is_whitespace(
            #[trigger] rest[i][k],
        ) by {
            assert(rest[i] == lines[i]);
        }
        blank_list_gives_no_words(rest);
        let last = lines.last();
        assert forall|k: int| 0 <= k < last.len() implies is_whitespace(#[trigger] last[k]) by {
            assert(last[k] == lines[lines.len() - 1][k]);
        }
        lemma_whitespace_only_is_blank(last);
    }
    assert(words_of(lines) =~= Set::<Seq<u8>>::empty());
}

/// Exact, case-sensitive words; a word is held as its UTF-8 bytes.
pub struct BannedWordSet {
    words: Vec<Vec<u8>>,
}

impl View for BannedWordSet {
    type V = Set<Seq<u8>>;

    closed spec fn view(&self) -> Set<Seq<u8>> {
        Set::new(|w: Seq<u8>| exists|i: int| 0 <= i < self.words@.len() && #[trigger] self.words@[i]@ == w)
    }
}

fn bytes_equal(a: &[u8], b: &[u8]) -> (r: bool)
    ensures
        r == (a@ == b@),
{
    if a.len() != b.len() {
        return false;
    }
    let mut i: usize = 0;
    while i < a.len()
        invariant
            a@.len() == b@.len(),
            i <= a@.len(),
            forall|k: int| 0 <= k < i ==> a@[k] == b@[k],
        decreases a@.len() - i,
    {
        if a[i] != b[i] {
            return false;
        }
        i = i + 1;
    }
    assert(a@ =~= b@);
    true
}

impl BannedWordSet {
    /// The set that a list of lines gives: each line is trimmed of
    /// whitespace at both ends, and lines left empty are dropped.
    pub fn banned_words_from(lines: &Vec<String>) -> (r: BannedWordSet)
        ensures
            r@ == words_of(lines_view(lines@)),
    {
        let mut words: Vec<Vec<u8>> = Vec::new();
        let mut i: usize = 0;
        while i < lines.len()
            invariant
                i <= lines@.len(),
                (BannedWordSet { words })@ == words_of(lines_view(lines@.subrange(0, i as int))),
            decreases lines@.len() - i,
        {
            let ghost before = words@;
            let ghost seen = lines_view(lines@.subrange(0, i as int + 1));
            assert(seen.drop_last() =~= lines_view(lines@.subrange(0, i as int)));
            assert(seen.last() == lines@[i as int]@);
            let t = trim_line(lines[i].as_str());
            if !t.is_empty() {
                let w = slice_to_vec(t.as_bytes());
                words.push(w);
                proof {
                    assert forall|x: Seq<u8>| (BannedWordSet { words })@.contains(x)
                        <==> words_of(seen).contains(x) by {
                        if (exists|j: int| 0 <= j < before.len() && #[trigger] before[j]@ == x) {
                            let j = choose|j: int| 0 <= j < before.len() && #[trigger] before[j]@ == x;
                            assert(words@[j]@ == x);
                        }
                        if x == word_of(seen.last()) {
                            assert(words@[before.len() as int]@ == x);
                        }
                        if (BannedWordSet { words })@.contains(x) {
                            let j = choose|j: int| 0 <= j < words@.len() && #[trigger] words@[j]@ == x;
                            if j < before.len() {
                                assert(before[j]@ == x);
                            }
                        }
                    }
                    assert((BannedWordSet { words })@ =~= words_of(seen));
                }
            }
            i = i + 1;
        }
        assert(lines@.subrange(0, lines@.len() as int) =~= lines@);
        BannedWordSet { words }
    }

    /// Whether `text` is, byte for byte, one of the words.
    pub fn contains(&self, text: &[u8]) -> (r: bool)
        ensures
            r == self@.contains(text@),
    {
        let mut i: usize = 0;
        while i < self.words.len()
            invariant
                i <= self.words@.len(),
                forall|k: int| 0 <= k < i ==> self.words@[k]@ != text@,
            decreases self.words@.len() - i,
        {
            if bytes_equal(self.words[i].as_slice(), text) {
                assert(self.words@[i as int]@ == text@);
                return true;
            }
            i = i + 1;
        }
        false
    }

    /// Whether the set has no word at all.
    pub fn is_empty(&self) -> (r: bool)
        ensures
            r == (self@ == Set::<Seq<u8>>::empty()),
    {
        if self.words.len() == 0 {
            assert(self@ =~= Set::<Seq<u8>>::empty());
            true
        } else {
            assert(self@.contains(self.words@[0]@));
            false
        }
    }
}

} // verus!
