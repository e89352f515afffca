//! Cleaning the text of a page: runs of ASCII characters and of Japanese
//! punctuation are cut out with regular expressions, and fragments that are
//! left with nothing worth reading are dropped.
use vstd::prelude::*;

verus! {

/// Runs of ASCII characters.
pub const ASCII_RUNS: &'static str = "[\\x00-\\x7F]+";

/// Runs of spaces, line breaks and Japanese punctuation (and, as the class
/// is written, of a few ASCII digits and `F`).
pub const OTHER_RUNS: &'static str = "[ \\n\u{FF08}\u{FF09}\u{3001}\u{3002}\u{300E}\u{300F}\u{A0}\u{201C}\\x3000-\\x303F\\x31F0-\\x31FF\\x3220-\\x3243\\x3280-\\x337F]+";

#[verifier::external_type_specification]
#[verifier::external_body]
pub struct ExRegexError(regex::Error);

/// Whether `regex::Regex::new` accepts `pattern`.
pub uninterp spec fn regex_compiles(pattern: Seq<char>) -> bool;

/// What `regex::Regex::replace_all` gives for `haystack` when every match of
/// `pattern` is replaced by `replacement`.
pub uninterp spec fn regex_replace_all(
    pattern: Seq<char>,
    haystack: Seq<char>,
    replacement: Seq<char>,
) -> Seq<char>;

/// A character of ASCII (code points 0 to 127).
pub open spec fn is_ascii_char(c: char) -> bool {
    (c as u32) < 128
}

/// A character of the class in `OTHER_RUNS`: space, line break, the
/// full-width brackets, `、`, `。`, `『`, `』`, the no-break space and `“`;
/// and, because a `\x` escape takes two hex digits, the characters that the
/// ranges spell out: the digits 0 to 4, 7 and 8, and `F`.
pub open spec fn is_punctuation(c: char) -> bool {
    let n = c as u32;
    ||| n == 0x20
    ||| n == 0x0A
    ||| n == 0xFF08
    ||| n == 0xFF09
    ||| n == 0x3001
    ||| n == 0x3002
    ||| n == 0x300E
    ||| n == 0x300F
    ||| n == 0xA0
    ||| n == 0x201C
    ||| (0x30 <= n && n <= 0x34)
    ||| n == 0x37
    ||| n == 0x38
    ||| n == 0x46
}

/// A character that cleaning removes: ASCII or punctuation.
pub open spec fn is_noise(c: char) -> bool {
    is_ascii_char(c) || is_punctuation(c)
}

/// `t` without its ASCII characters, the others kept in order.
pub open spec fn ascii_free(t: Seq<char>) -> Seq<char> {
    t.filter(|c: char| !is_ascii_char(c))
}

/// `t` without its punctuation characters, the others kept in order.
pub open spec fn punctuation_free(t: Seq<char>) -> Seq<char> {
    t.filter(|c: char| !is_punctuation(c))
}

/// `t` without its noise characters, the others kept in order.
pub open spec fn noise_free(t: Seq<char>) -> Seq<char> {
    t.filter(|c: char| !is_noise(c))
}

/// Compiles `pattern` with `regex::Regex::new` and replaces every match in
/// `haystack` by `replacement` with `Regex::replace_all`. The compiled
/// `Regex` is a value only `regex` can read, so compiling and replacing are
/// one trusted step. Trusted: the result is `Ok` exactly when the pattern
/// compiles, and then it is what `replace_all` gives. Beyond that name,
/// facts that the `regex` syntax documentation shows are claimed for the
/// two cleaning patterns of this library: both are valid (character
/// classes of single characters, two-digit `\x` escapes and ascending
/// ranges, repeated with `+`); replacing every match by nothing only cuts
/// characters out; every match of `[\x00-\x7F]+` is a run of code points 0
/// to 127, so replacing them by nothing leaves exactly the non-ASCII
/// characters; and every match of `OTHER_RUNS` is a run of the characters
/// of its class (`is_punctuation`), so replacing them by nothing leaves
/// exactly the other characters. Other regular-expression semantics are not
/// stated, only named.
#[verifier::external_body]
fn replace_all_matches(pattern: &str, haystack: &str, replacement: &str) -> (res: Result<
    String,
    regex::Error,
>)
    ensures
        res is Ok <==> regex_compiles(pattern@),
        res matches Ok(s) ==> s@ == regex_replace_all(pattern@, haystack@, replacement@),
        res matches Ok(s) ==> (replacement@.len() == 0 ==> forall|c: char|
            #[trigger] s@.contains(c) ==> haystack@.contains(c)),
        res is Err ==> pattern@ != ASCII_RUNS@ && pattern@ != OTHER_RUNS@,
        res matches Ok(s) ==> (pattern@ == ASCII_RUNS@ && replacement@.len() == 0
            ==> s@ == ascii_free(haystack@)),
        res matches Ok(s) ==> (pattern@ == OTHER_RUNS@ && replacement@.len() == 0
            ==> s@ == punctuation_free(haystack@)),
{
    match regex::Regex::new(pattern) {
        Ok(re) => Ok(re.replace_all(haystack, replacement).into_owned()),
        Err(e) => Err(e),
    }
}

/// `t` with every run of ASCII characters cut out.
pub open spec fn without_ascii(t: Seq<char>) -> Seq<char> {
    regex_replace_all(ASCII_RUNS@, t, ""@)
}

/// `t` with every run of spaces and Japanese punctuation cut out.
pub open spec fn without_other(t: Seq<char>) -> Seq<char> {
    regex_replace_all(OTHER_RUNS@, t, ""@)
}

/// Cuts every run of ASCII characters out of `before`.
pub fn filter_ascii(before: &str) -> (res: String)
    ensures
        res@ == without_ascii(before@),
        res@ == ascii_free(before@),
{
    proof {
        reveal_strlit("");
    }
    match replace_all_matches(ASCII_RUNS, before, "") {
        Ok(s) => s,
        Err(_) => {
            proof {
                assert(false);
            }
            String::new()
        },
    }
}

/// Cuts every run of spaces and Japanese punctuation out of `before`.
pub fn filter_other(before: &str) -> (res: String)
    ensures
        res@ == without_other(before@),
        res@ == punctuation_free(before@),
        forall|c: char| #[trigger] res@.contains(c) ==> before@.contains(c),
{
    proof {
        reveal_strlit("");
    }
    match replace_all_matches(OTHER_RUNS, before, "") {
        Ok(s) => s,
        Err(_) => {
            proof {
                assert(false);
            }
            String::new()
        },
    }
}

/// Cuts the ASCII runs out of `before`, then the punctuation runs: what is
/// left is `before` without its noise characters, in order.
pub fn filter_noise(before: &str) -> (res: String)
    ensures
        res@ == without_other(without_ascii(before@)),
        res@ == noise_free(before@),
        forall|c: char| #[trigger] res@.contains(c) ==> before@.contains(c) && !is_noise(c),
{
    let without = filter_ascii(before);
    let res = filter_other(without.as_str());
    proof {
        lemma_noise_free_in_two_steps(before@);
        assert forall|c: char| #[trigger] res@.contains(c) implies before@.contains(c)
            && !is_noise(c) by {
            lemma_noise_free_chars(before@, c);
        }
    }
    res
}

/// Cutting the ASCII characters, then the punctuation, cuts the noise.
proof fn lemma_noise_free_in_two_steps(t: Seq<char>)
    ensures
        punctuation_free(ascii_free(t)) == noise_free(t),
    decreases t.len(),
{
    reveal(Seq::filter);
    if t.len() > 0 {
        let rest = t.drop_last();
        let x = t.last();
        lemma_noise_free_in_two_steps(rest);
        if !is_ascii_char(x) {
            assert(ascii_free(t).drop_last() =~= ascii_free(rest));
        }
    }
}

/// A character left by `noise_free` is no noise and comes from the text.
pub proof fn lemma_noise_free_chars(t: Seq<char>, c: char)
    requires
        noise_free(t).contains(c),
    ensures
        t.contains(c),
        !is_noise(c),
    decreases t.len(),
{
    reveal(Seq::filter);
    let rest = t.drop_last();
    let i = choose|i: int| 0 <= i < noise_free(t).len() && noise_free(t)[i] == c;
    if i < noise_free(rest).len() {
        assert(noise_free(rest)[i] == c);
        lemma_noise_free_chars(rest, c);
        let j = choose|j: int| 0 <= j < rest.len() && rest[j] == c;
        assert(t[j] == c);
    } else {
        assert(c == t.last());
        assert(t[t.len() - 1] == c);
    }
}

/// Cleaning is idempotent: a cleaned text is left as it is by cleaning it
/// again.
pub proof fn lemma_noise_free_idempotent(t: Seq<char>)
    ensures
        noise_free(noise_free(t)) == noise_free(t),
    decreases t.len(),
{
    reveal(Seq::filter);
    if t.len() > 0 {
        let rest = t.drop_last();
        lemma_noise_free_idempotent(rest);
        if !is_noise(t.last()) {
            let s = noise_free(t);
            assert(s.drop_last() =~= noise_free(rest));
            assert(noise_free(s).drop_last() =~= noise_free(noise_free(rest)));
        }
    }
}

/// Cleaning works character by character: cleaning two texts one after the
/// other gives the two cleaned texts one after the other.
pub proof fn lemma_noise_free_concat(a: Seq<char>, b: Seq<char>)
    ensures
        noise_free(a + b) == noise_free(a) + noise_free(b),
    decreases b.len(),
{
    reveal(Seq::filter);
    if b.len() == 0 {
        assert(a + b =~= a);
        assert(noise_free(a) + noise_free(b) =~= noise_free(a));
    } else {
        lemma_noise_free_concat(a, b.drop_last());
        assert((a + b).drop_last() =~= a + b.drop_last());
        assert((a + b).last() == b.last());
        if !is_noise(b.last()) {
            assert(noise_free(a) + noise_free(b) =~= (noise_free(a) + noise_free(b.drop_last())).push(
                b.last(),
            ));
        } else {
            assert(noise_free(a) + noise_free(b) =~= noise_free(a) + noise_free(b.drop_last()));
        }
    }
}

/// The fragments that are dropped once cleaned: blanks, line breaks, lone
/// brackets and separators.
pub open spec fn ignored_entries() -> Seq<Seq<char>> {
    seq!["\n"@, ""@, "\n\n"@, " "@, "\u{FF08}"@, "\u{FF09}"@, "^"@, " - "@]
}

fn same_text(a: &str, b: &str) -> (res: bool)
    ensures
        res == (a@ == b@),
{
    a.to_owned() == b.to_owned()
}

/// Whether `entry` is one of the fragments that are dropped.
pub fn is_ignored(entry: &str) -> (res: bool)
    ensures
        res == ignored_entries().contains(entry@),
{
    let ignored = vec!["\n", "", "\n\n", " ", "\u{FF08}", "\u{FF09}", "^", " - "];
    let mut i: usize = 0;
    while i < ignored.len()
        invariant
            ignored@.map_values(|s: &str| s@) == ignored_entries(),
            i <= ignored@.len(),
            forall|j: int| 0 <= j < i ==> ignored_entries()[j] != entry@,
        decreases ignored@.len() - i,
    {
        if same_text(ignored[i], entry) {
            assert(ignored_entries()[i as int] == entry@);
            return true;
        }
        i = i + 1;
    }
    assert(!ignored_entries().contains(entry@));
    false
}

/// The cleaned texts that are kept: each text cleaned of noise, and the
/// ignored fragments dropped.
pub open spec fn cleaned(texts: Seq<Seq<char>>) -> Seq<Seq<char>>
    decreases texts.len(),
{
    if texts.len() == 0 {
        seq![]
    } else {
        let rest = cleaned(texts.drop_last());
        let t = noise_free(texts.last());
        if ignored_entries().contains(t) {
            rest
        } else {
            rest.push(t)
        }
    }
}

/// The texts of a sequence of strings.
pub open spec fn text_views(ts: Seq<String>) -> Seq<Seq<char>> {
    ts.map_values(|t: String| t@)
}

/// A fragment worth keeping: clean already, not empty and not one of the
/// ignored fragments.
pub open spec fn kept_fragment(t: Seq<char>) -> bool {
    &&& noise_free(t) == t
    &&& t.len() > 0
    &&& !ignored_entries().contains(t)
}

/// Cleans every text and drops the fragments left empty or meaningless.
pub fn clean_texts(texts: &Vec<String>) -> (res: Vec<String>)
    ensures
        text_views(res@) == cleaned(text_views(texts@)),
        forall|k: int, c: char|
            0 <= k < res@.len() && #[trigger] res@[k]@.contains(c) ==> (c as u32) >= 128,
        forall|k: int| 0 <= k < res@.len() ==> kept_fragment(#[trigger] res@[k]@),
{
    proof {
        reveal_strlit("");
        assert(""@ =~= Seq::<char>::empty());
        assert(ignored_entries()[1] == Seq::<char>::empty());
    }
    let mut out: Vec<String> = Vec::new();
    let mut i: usize = 0;
    while i < texts.len()
        invariant
            i <= texts@.len(),
            text_views(out@) == cleaned(text_views(texts@.take(i as int))),
            forall|k: int, c: char|
                0 <= k < out@.len() && #[trigger] out@[k]@.contains(c) ==> (c as u32) >= 128,
            forall|k: int| 0 <= k < out@.len() ==> kept_fragment(#[trigger] out@[k]@),
            ignored_entries().contains(seq![]),
        decreases texts@.len() - i,
    {
        assert(text_views(texts@.take(i + 1)).drop_last() =~= text_views(texts@.take(i as int)));
        assert(text_views(texts@.take(i + 1)).last() == texts@[i as int]@);
        let t = filter_noise(texts[i].as_str());
        if !is_ignored(t.as_str()) {
            let ghost tv = t@;
            proof {
                lemma_noise_free_idempotent(texts@[i as int]@);
                if tv.len() == 0 {
                    assert(tv =~= seq![]);
                }
            }
            out.push(t);
            assert(text_views(out@) =~= text_views(out@.drop_last()).push(tv));
        }
        i = i + 1;
    }
    assert(texts@.take(i as int) =~= texts@);
    out
}

/// Cleaning a page's texts treats each text on its own: the fragments of
/// two lists of texts one after the other are the fragments of each, one
/// after the other.
pub proof fn lemma_cleaned_concat(a: Seq<Seq<char>>, b: Seq<Seq<char>>)
    ensures
        cleaned(a + b) == cleaned(a) + cleaned(b),
    decreases b.len(),
{
    if b.len() == 0 {
        assert(a + b =~= a);
        assert(cleaned(a) + cleaned(b) =~= cleaned(a));
    } else {
        lemma_cleaned_concat(a, b.drop_last());
        assert((a + b).drop_last() =~= a + b.drop_last());
        assert((a + b).last() == b.last());
        let t = noise_free(b.last());
        if ignored_entries().contains(t) {
            assert(cleaned(a) + cleaned(b) =~= cleaned(a) + cleaned(b.drop_last()));
        } else {
            assert(cleaned(a) + cleaned(b) =~= (cleaned(a) + cleaned(b.drop_last())).push(t));
        }
    }
}

/// A single text gives its cleaned form, unless that is one of the ignored
/// fragments, which gives nothing: no other fragment is ever dropped.
pub proof fn lemma_cleaned_single(t: Seq<char>)
    ensures
        cleaned(seq![t]) == if ignored_entries().contains(noise_free(t)) {
            Seq::<Seq<char>>::empty()
        } else {
            seq![noise_free(t)]
        },
{
    let e = Seq::<Seq<char>>::empty();
    assert(seq![t].drop_last() =~= e);
    assert(seq![t].last() == t);
    assert(cleaned(e) == e);
    assert(e.push(noise_free(t)) =~= seq![noise_free(t)]);
}

/// The number of fragments kept is the number of texts whose cleaned form
/// is not an ignored fragment.
pub open spec fn kept_count(texts: Seq<Seq<char>>) -> nat
    decreases texts.len(),
{
    if texts.len() == 0 {
        0
    } else {
        kept_count(texts.drop_last()) + if ignored_entries().contains(noise_free(texts.last())) {
            0nat
        } else {
            1nat
        }
    }
}

/// Every text whose cleaned form is not ignored gives one fragment.
pub proof fn lemma_cleaned_len(texts: Seq<Seq<char>>)
    ensures
        cleaned(texts).len() == kept_count(texts),
    decreases texts.len(),
{
    if texts.len() > 0 {
        lemma_cleaned_len(texts.drop_last());
    }
}

/// No fragment that is kept is one of the ignored ones.
pub proof fn lemma_cleaned_keeps_no_ignored(texts: Seq<Seq<char>>)
    ensures
        forall|k: int| 0 <= k < cleaned(texts).len() ==> !ignored_entries().contains(
            #[trigger] cleaned(texts)[k],
        ),
    decreases texts.len(),
{
    if texts.len() > 0 {
        let rest = cleaned(texts.drop_last());
        lemma_cleaned_keeps_no_ignored(texts.drop_last());
        assert forall|k: int| 0 <= k < cleaned(texts).len() implies !ignored_entries().contains(
            #[trigger] cleaned(texts)[k],
        ) by {
            if k < rest.len() {
                assert(cleaned(texts)[k] == rest[k]);
            }
        }
    }
}

} // verus!
