use vstd::prelude::*;

verus! {

/// The characters that carry Unicode's `White_Space` property.
pub open spec fn is_unicode_space(c: char) -> bool {
    ('\t' <= c && c <= '\r') || c == ' ' || c == '\u{85}' || c == '\u{A0}' || c == '\u{1680}'
        || ('\u{2000}' <= c && c <= '\u{200A}') || c == '\u{2028}' || c == '\u{2029}'
        || c == '\u{202F}' || c == '\u{205F}' || c == '\u{3000}'
}

/// What `str::to_lowercase` makes of a character sequence.
pub uninterp spec fn lower_of(s: Seq<char>) -> Seq<char>;

/// Relies on `char::is_whitespace`: true exactly for the `White_Space` characters.
#[verifier::external_body]
fn is_space(c: char) -> (r: bool)
    ensures
        r == is_unicode_space(c),
{
    c.is_whitespace()
}

/// Relies on `str::to_lowercase`: the result depends on the characters alone.
#[verifier::external_body]
fn lowercase(v: &[char]) -> (r: String)
    ensures
        r@ == lower_of(v@),
{
    let s: String = v.iter().collect();
    s.to_lowercase()
}

/// Relies on `String::from_iter` over `char`: the string holds the characters in order.
#[verifier::external_body]
pub(crate) fn string_from_chars(v: &[char]) -> (r: String)
    ensures
        r@ == v@,
{
    v.iter().collect()
}

/// The characters of a string, in order.
pub fn chars_of(s: &str) -> (r: Vec<char>)
    ensures
        r@ == s@,
{
    let mut out: Vec<char> = Vec::new();
    for c in it: s.chars()
        invariant
            out@ == it.seq().take(it.index() as int),
            it.seq() == s@,
    {
        out.push(c);
    }
    assert(out@ =~= s@);
    out
}


/// A character at which the text is cut into tokens.
pub open spec fn is_sep(c: char) -> bool {
    is_unicode_space(c) || c == '.'
}

/// `s[a..b]` is one of the pieces that splitting `s` on whitespace, and each word on
/// `.`, yields. A word is a non-empty run of non-whitespace characters, so an empty piece
/// exists only next to a `.`.
pub open spec fn is_piece(s: Seq<char>, a: int, b: int) -> bool {
    &&& 0 <= a <= b <= s.len()
    &&& forall|k: int| a <= k < b ==> !is_sep(#[trigger] s[k])
    &&& a == 0 || is_sep(s[a - 1])
    &&& b == s.len() || is_sep(s[b])
    &&& a < b || (a > 0 && s[a - 1] == '.') || (b < s.len() && s[b] == '.')
}

/// `t` is a token of `s`: the lower-cased form of one of its pieces.
pub open spec fn is_token_of(s: Seq<char>, t: Seq<char>) -> bool {
    exists|a: int, b: int| #[trigger] is_piece(s, a, b) && t == lower_of(s.subrange(a, b))
}

/// The character sequences of a list of strings.
pub open spec fn strings_view(v: Seq<String>) -> Seq<Seq<char>> {
    v.map_values(|x: String| x@)
}

/// Inserts `s` unless a string with the same characters is there already.
pub fn insert_unique(v: &mut Vec<String>, s: String)
    requires
        strings_view(old(v)@).no_duplicates(),
    ensures
        strings_view(final(v)@).no_duplicates(),
        forall|t: Seq<char>|
            strings_view(final(v)@).contains(t) <==> (strings_view(old(v)@).contains(t) || t == s@),
{
    let mut i: usize = 0;
    while i < v.len()
        invariant
            i <= v.len(),
            v@ == old(v)@,
            strings_view(v@).no_duplicates(),
            forall|j: int| 0 <= j < i ==> v@[j]@ != s@,
        decreases v.len() - i,
    {
        if v[i] == s {
            assert(strings_view(v@)[i as int] == s@);
            assert(strings_view(v@).contains(s@));
            return;
        }
        i += 1;
    }
    proof {
        assert forall|t: Seq<char>| strings_view(v@).contains(t) implies t != s@ by {
            let j = choose|j: int| 0 <= j < v.len() && strings_view(v@)[j] == t;
            assert(v@[j]@ == t);
        }
    }
    let ghost before = v@;
    v.push(s);
    proof {
        assert(strings_view(v@) =~= strings_view(before).push(s@));
        assert forall|t: Seq<char>| strings_view(v@).contains(t) implies (strings_view(
            before,
        ).contains(t) || t == s@) by {
            let j = choose|j: int| 0 <= j < v.len() && strings_view(v@)[j] == t;
            if j < before.len() {
                assert(strings_view(before)[j] == t);
            }
        }
        assert forall|t: Seq<char>| strings_view(before).contains(t) implies strings_view(
            v@,
        ).contains(t) by {
            let j = choose|j: int| 0 <= j < before.len() && strings_view(before)[j] == t;
            assert(strings_view(v@)[j] == t);
        }
        assert(strings_view(v@)[before.len() as int] == s@);
    }
}

/// A piece that ends at `b` starts at the first character after the last cut before `b`.
proof fn lemma_piece_start(s: Seq<char>, a: int, b: int, start: int)
    requires
        is_piece(s, a, b),
        0 <= start <= b,
        start == 0 || is_sep(s[start - 1]),
        forall|k: int| start <= k < b ==> !is_sep(#[trigger] s[k]),
    ensures
        a == start,
{
    if a < start {
        assert(!is_sep(s[start - 1]));
    } else if a > start {
        assert(!is_sep(s[a - 1]));
    }
}

/// No piece ends at `b` where `b` follows whitespace (or the start) and is not a `.`.
proof fn lemma_no_piece_after_space(s: Seq<char>, a: int, b: int)
    requires
        0 <= b <= s.len(),
        b == 0 || is_unicode_space(s[b - 1]),
        b == s.len() || is_unicode_space(s[b]),
    ensures
        !is_piece(s, a, b),
{
    if is_piece(s, a, b) && a < b {
        assert(!is_sep(s[b - 1]));
    }
}

/// The set of tokens of `text`: split on whitespace, each word split on `.`, each piece
/// lower-cased, duplicates removed.
pub fn tokenize(text: &String) -> (r: Vec<String>)
    ensures
        strings_view(r@).no_duplicates(),
        forall|t: Seq<char>| strings_view(r@).contains(t) <==> is_token_of(text@, t),
{
    let cs = chars_of(text.as_str());
    let ghost s = text@;
    let n = cs.len();
    let mut out: Vec<String> = Vec::new();
    let mut start: usize = 0;
    let mut in_word = false;
    let mut i: usize = 0;
    while i < n
        invariant
            cs@ == s,
            n == s.len(),
            i <= n,
            start <= i,
            strings_view(out@).no_duplicates(),
            in_word == (i > 0 && !is_unicode_space(s[i - 1])),
            in_word ==> (start == 0 || is_sep(s[start - 1])),
            in_word ==> forall|k: int| start <= k < i ==> !is_sep(#[trigger] s[k]),
            in_word && start == i ==> (start > 0 && s[start - 1] == '.'),
            forall|t: Seq<char>|
                strings_view(out@).contains(t) <==> exists|a: int, b: int|
                    #[trigger] is_piece(s, a, b) && b < i && t == lower_of(s.subrange(a, b)),
        decreases n - i,
    {
        let c = cs[i];
        let ghost old_out = out@;
        if is_space(c) {
            if in_word {
                let piece = lowercase(vstd::slice::slice_subrange(cs.as_slice(), start, i));
                insert_unique(&mut out, piece);
                proof {
                    assert(is_piece(s, start as int, i as int));
                    assert forall|t: Seq<char>|
                        strings_view(out@).contains(t) <==> exists|a: int, b: int|
                            #[trigger] is_piece(s, a, b) && b < i + 1 && t == lower_of(
                                s.subrange(a, b),
                            ) by {
                        if exists|a: int, b: int|
                            #[trigger] is_piece(s, a, b) && b < i + 1 && t == lower_of(
                                s.subrange(a, b),
                            ) {
                            let (a, b) = choose|a: int, b: int|
                                #[trigger] is_piece(s, a, b) && b < i + 1 && t == lower_of(
                                    s.subrange(a, b),
                                );
                            if b == i {
                                lemma_piece_start(s, a, b, start as int);
                            }
                        }
                    }
                }
            } else {
                proof {
                    assert forall|a: int, b: int| #[trigger] is_piece(s, a, b) implies b != i by {
                        if b == i {
                            lemma_no_piece_after_space(s, a, b);
                        }
                    }
                }
            }
            in_word = false;
        } else if c == '.' {
            if !in_word {
                start = i;
            }
            let piece = lowercase(vstd::slice::slice_subrange(cs.as_slice(), start, i));
            insert_unique(&mut out, piece);
            proof {
                assert(is_piece(s, start as int, i as int));
                assert forall|t: Seq<char>|
                    strings_view(out@).contains(t) <==> exists|a: int, b: int|
                        #[trigger] is_piece(s, a, b) && b < i + 1 && t == lower_of(
                            s.subrange(a, b),
                        ) by {
                    if exists|a: int, b: int|
                        #[trigger] is_piece(s, a, b) && b < i + 1 && t == lower_of(
                            s.subrange(a, b),
                        ) {
                        let (a, b) = choose|a: int, b: int|
                            #[trigger] is_piece(s, a, b) && b < i + 1 && t == lower_of(
                                s.subrange(a, b),
                            );
                        if b == i {
                            lemma_piece_start(s, a, b, start as int);
                        }
                    }
                }
            }
            start = i + 1;
            in_word = true;
        } else {
            if !in_word {
                start = i;
                in_word = true;
            }
            proof {
                assert forall|a: int, b: int| #[trigger] is_piece(s, a, b) implies b != i by {
                }
            }
        }
        i += 1;
    }
    if in_word {
        let piece = lowercase(vstd::slice::slice_subrange(cs.as_slice(), start, n));
        insert_unique(&mut out, piece);
        proof {
            assert(is_piece(s, start as int, n as int));
            assert forall|t: Seq<char>|
                strings_view(out@).contains(t) <==> is_token_of(s, t) by {
                if is_token_of(s, t) {
                    let (a, b) = choose|a: int, b: int|
                        #[trigger] is_piece(s, a, b) && t == lower_of(s.subrange(a, b));
                    if b == n {
                        lemma_piece_start(s, a, b, start as int);
                    }
                }
            }
        }
    } else {
        proof {
            assert forall|t: Seq<char>|
                strings_view(out@).contains(t) <==> is_token_of(s, t) by {
                if is_token_of(s, t) {
                    let (a, b) = choose|a: int, b: int|
                        #[trigger] is_piece(s, a, b) && t == lower_of(s.subrange(a, b));
                    if b == n {
                        lemma_no_piece_after_space(s, a, b);
                    }
                }
            }
        }
    }
    out
}


/// `t` is a window of `k` consecutive characters of `s`.
pub open spec fn is_shingle_of(s: Seq<char>, k: nat, t: Seq<char>) -> bool {
    exists|i: int| 0 <= i && i + k <= s.len() && t == #[trigger] s.subrange(i, i + k)
}

/// The set of windows of `k` characters of `doc`, each once; empty when `doc` is shorter
/// than `k`.
pub fn shingle(doc: &String, k: usize) -> (r: Vec<String>)
    ensures
        strings_view(r@).no_duplicates(),
        forall|t: Seq<char>| strings_view(r@).contains(t) <==> is_shingle_of(doc@, k as nat, t),
        doc@.len() < k ==> r@.len() == 0,
{
    let cs = chars_of(doc.as_str());
    let ghost s = doc@;
    let n = cs.len();
    let mut out: Vec<String> = Vec::new();
    if k > n {
        proof {
            assert forall|t: Seq<char>| !is_shingle_of(s, k as nat, t) by {
            }
        }
        return out;
    }
    let last = n - k;
    let mut i: usize = 0;
    loop
        invariant_except_break
            forall|t: Seq<char>|
                strings_view(out@).contains(t) <==> exists|j: int|
                    0 <= j < i && t == #[trigger] s.subrange(j, j + k),
        invariant
            cs@ == s,
            n == s.len(),
            last == n - k,
            i <= last,
            strings_view(out@).no_duplicates(),
        ensures
            strings_view(out@).no_duplicates(),
            forall|t: Seq<char>|
                strings_view(out@).contains(t) <==> exists|j: int|
                    0 <= j <= last && t == #[trigger] s.subrange(j, j + k),
        decreases last - i,
    {
        let w = string_from_chars(vstd::slice::slice_subrange(cs.as_slice(), i, i + k));
        insert_unique(&mut out, w);
        if i == last {
            break;
        }
        i += 1;
    }
    out
}

/// The shingle set of every document, at the document's position.
pub fn create_shingles(documents: &Vec<String>, k: usize) -> (r: Vec<Vec<String>>)
    ensures
        r.len() == documents.len(),
        forall|d: int|
            0 <= d < r.len() ==> {
                &&& strings_view(#[trigger] r@[d]@).no_duplicates()
                &&& forall|t: Seq<char>|
                    strings_view(r@[d]@).contains(t) <==> is_shingle_of(documents@[d]@, k as nat, t)
            },
{
    let mut out: Vec<Vec<String>> = Vec::new();
    for d in 0..documents.len()
        invariant
            out.len() == d,
            forall|e: int|
                0 <= e < d ==> {
                    &&& strings_view(#[trigger] out@[e]@).no_duplicates()
                    &&& forall|t: Seq<char>|
                        strings_view(out@[e]@).contains(t) <==> is_shingle_of(
                            documents@[e]@,
                            k as nat,
                            t,
                        )
                },
    {
        let set = shingle(&documents[d], k);
        out.push(set);
    }
    out
}

} // verus!
