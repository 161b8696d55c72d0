//! Names: their order and their formatting.

use crate::errors::FelixError;
use vstd::prelude::*;

verus! {

/// Lexicographic order on character sequences, comparing characters by code point.
///
/// This is the order of `String`s in Rust (UTF-8 preserves the order of code points).
pub open spec fn lex_lt(a: Seq<char>, b: Seq<char>) -> bool
    decreases a.len(),
{
    if b.len() == 0 {
        false
    } else if a.len() == 0 {
        true
    } else if a[0] != b[0] {
        (a[0] as int) < (b[0] as int)
    } else {
        lex_lt(a.drop_first(), b.drop_first())
    }
}

/// No sequence comes before itself.
pub proof fn lemma_lex_lt_irreflexive(a: Seq<char>)
    ensures
        !lex_lt(a, a),
    decreases a.len(),
{
    if a.len() > 0 {
        lemma_lex_lt_irreflexive(a.drop_first());
    }
}

/// The order is asymmetric.
pub proof fn lemma_lex_lt_asymmetric(a: Seq<char>, b: Seq<char>)
    requires
        lex_lt(a, b),
    ensures
        !lex_lt(b, a),
    decreases a.len(),
{
    if a.len() > 0 && b.len() > 0 && a[0] == b[0] {
        lemma_lex_lt_asymmetric(a.drop_first(), b.drop_first());
    }
}

/// The order is transitive.
pub proof fn lemma_lex_lt_transitive(a: Seq<char>, b: Seq<char>, c: Seq<char>)
    requires
        lex_lt(a, b),
        lex_lt(b, c),
    ensures
        lex_lt(a, c),
    decreases a.len(),
{
    if a.len() > 0 && b.len() > 0 && c.len() > 0 && a[0] == b[0] && b[0] == c[0] {
        lemma_lex_lt_transitive(a.drop_first(), b.drop_first(), c.drop_first());
    }
}

/// Two different sequences are ordered one way or the other.
pub proof fn lemma_lex_lt_total(a: Seq<char>, b: Seq<char>)
    requires
        a != b,
    ensures
        lex_lt(a, b) || lex_lt(b, a),
    decreases a.len(),
{
    if a.len() > 0 && b.len() > 0 && a[0] == b[0] {
        if a.drop_first() == b.drop_first() {
            assert(a =~= seq![a[0]] + a.drop_first());
            assert(b =~= seq![b[0]] + b.drop_first());
        } else {
            lemma_lex_lt_total(a.drop_first(), b.drop_first());
        }
    } else if a.len() == 0 && b.len() == 0 {
        assert(a =~= b);
    } else if a.len() > 0 && b.len() > 0 {
        assert((a[0] as int) != (b[0] as int));
    }
}

proof fn lemma_skip_step(s: Seq<char>, i: int)
    requires
        0 <= i < s.len(),
    ensures
        s.skip(i).drop_first() =~= s.skip(i + 1),
        s.skip(i)[0] == s[i],
        s.skip(i).len() == s.len() - i,
{
}

/// True if both strings hold the same characters.
pub fn string_eq(a: &String, b: &String) -> (r: bool)
    ensures
        r == (a@ == b@),
{
    let sa = a.as_str();
    let sb = b.as_str();
    let la = sa.unicode_len();
    let lb = sb.unicode_len();
    if la != lb {
        return false;
    }
    let mut i: usize = 0;
    while i < la
        invariant
            sa@ == a@,
            sb@ == b@,
            la == a@.len(),
            lb == b@.len(),
            la == lb,
            i <= la,
            forall|k: int| 0 <= k < i ==> a@[k] == b@[k],
        decreases la - i,
    {
        if sa.get_char(i) != sb.get_char(i) {
            return false;
        }
        i = i + 1;
    }
    assert(a@ =~= b@);
    true
}

/// True if the first string comes strictly before the second one.
pub fn string_lt(a: &String, b: &String) -> (r: bool)
    ensures
        r == lex_lt(a@, b@),
{
    let sa = a.as_str();
    let sb = b.as_str();
    let la = sa.unicode_len();
    let lb = sb.unicode_len();
    let mut i: usize = 0;
    assert(a@.skip(0) =~= a@);
    assert(b@.skip(0) =~= b@);
    while i < la && i < lb
        invariant
            sa@ == a@,
            sb@ == b@,
            la == a@.len(),
            lb == b@.len(),
            i <= la,
            i <= lb,
            lex_lt(a@, b@) == lex_lt(a@.skip(i as int), b@.skip(i as int)),
        decreases la - i,
    {
        let ca = sa.get_char(i);
        let cb = sb.get_char(i);
        proof {
            lemma_skip_step(a@, i as int);
            lemma_skip_step(b@, i as int);
        }
        if ca != cb {
            return (ca as u32) < (cb as u32);
        }
        i = i + 1;
    }
    i == la && i < lb
}

/// True if the character is an ASCII whitespace.
pub open spec fn is_space(c: char) -> bool {
    c == ' ' || c == '\t' || c == '\n' || c == '\x0C' || c == '\r'
}

/// The ASCII uppercase version of a character (other characters are kept as they are).
pub open spec fn ascii_upper(c: char) -> char {
    if 'a' <= c && c <= 'z' {
        ((c as u32) - 32) as char
    } else {
        c
    }
}

/// Cleans the rest of a name: whitespace runs become a single space between words and the
/// first letter of each word is capitalized.
///
/// `in_word` is true when the previous character belongs to a word, `any_word` is true when a
/// word was already written.
pub open spec fn clean_rec(s: Seq<char>, in_word: bool, any_word: bool) -> Seq<char>
    decreases s.len(),
{
    if s.len() == 0 {
        Seq::empty()
    } else if is_space(s[0]) {
        clean_rec(s.drop_first(), false, any_word)
    } else {
        let separator: Seq<char> = if !in_word && any_word {
            seq![' ']
        } else {
            Seq::empty()
        };
        let c = if in_word {
            s[0]
        } else {
            ascii_upper(s[0])
        };
        separator + seq![c] + clean_rec(s.drop_first(), true, true)
    }
}

/// The cleaned version of a name: words separated by single spaces, with a capital first
/// letter, and no space around.
pub open spec fn spec_clean_string(s: Seq<char>) -> Seq<char> {
    clean_rec(s, false, false)
}

/// True if the name holds at least one character which is not a space.
pub open spec fn has_word(s: Seq<char>) -> bool {
    exists|i: int| 0 <= i < s.len() && !is_space(#[trigger] s[i])
}

/// The cleaned name is empty exactly when the name holds no word.
proof fn lemma_clean_rec_empty(s: Seq<char>, in_word: bool, any_word: bool)
    ensures
        (clean_rec(s, in_word, any_word).len() == 0) == !has_word(s),
    decreases s.len(),
{
    if s.len() > 0 {
        lemma_clean_rec_empty(s.drop_first(), in_word && !is_space(s[0]), any_word);
        if is_space(s[0]) {
            lemma_clean_rec_empty(s.drop_first(), false, any_word);
            if has_word(s) {
                let i = choose|i: int| 0 <= i < s.len() && !is_space(#[trigger] s[i]);
                assert(s.drop_first()[i - 1] == s[i]);
            }
            if has_word(s.drop_first()) {
                let i = choose|i: int|
                    0 <= i < s.drop_first().len() && !is_space(#[trigger] s.drop_first()[i]);
                assert(s[i + 1] == s.drop_first()[i]);
            }
        } else {
            assert(!is_space(s[0]));
        }
    }
}

proof fn lemma_clean_rec_step(s: Seq<char>, i: int, in_word: bool, any_word: bool)
    requires
        0 <= i < s.len(),
    ensures
        clean_rec(s.skip(i), in_word, any_word) == (if is_space(s[i]) {
            clean_rec(s.skip(i + 1), false, any_word)
        } else {
            (if !in_word && any_word {
                seq![' ']
            } else {
                Seq::<char>::empty()
            }) + seq![if in_word {
                s[i]
            } else {
                ascii_upper(s[i])
            }] + clean_rec(s.skip(i + 1), true, true)
        }),
{
    assert(s.skip(i).drop_first() =~= s.skip(i + 1));
}

/// Calls `String::push` of std, whose documentation says that it appends the character to the
/// end of the string: the contract claims that the characters of the string become the former
/// ones followed by `c`.
#[verifier::external_body]
pub(crate) fn push_char(s: &mut String, c: char)
    ensures
        final(s)@ == old(s)@.push(c),
{
    s.push(c)
}

fn upper_ascii_char(c: char) -> (r: char)
    ensures
        r == ascii_upper(c),
{
    if 'a' <= c && c <= 'z' {
        let b: u8 = (c as u8) - 32;
        b as char
    } else {
        c
    }
}

/// Removes leading and trailing whitespaces, replaces runs of whitespaces by single spaces
/// and capitalizes the first letter of each word.
///
/// Returns Err if the cleaned name is empty.
pub fn clean_string(s: &str) -> (r: Result<String, FelixError>)
    ensures
        match r {
            Ok(name) => name@ == spec_clean_string(s@) && name@.len() > 0,
            Err(e) => e is EmptyName && spec_clean_string(s@).len() == 0,
        },
        r is Ok <==> has_word(s@),
{
    let len = s.unicode_len();
    let mut res = String::new();
    let mut in_word = false;
    let mut any_word = false;
    let mut i: usize = 0;
    assert(s@.skip(0) =~= s@);
    while i < len
        invariant
            len == s@.len(),
            i <= len,
            res@ + clean_rec(s@.skip(i as int), in_word, any_word) == spec_clean_string(s@),
            any_word == (res@.len() > 0),
        decreases len - i,
    {
        let c = s.get_char(i);
        proof {
            lemma_clean_rec_step(s@, i as int, in_word, any_word);
        }
        if is_space_char(c) {
            in_word = false;
        } else {
            if !in_word && any_word {
                push_char(&mut res, ' ');
            }
            if in_word {
                push_char(&mut res, c);
            } else {
                let u = upper_ascii_char(c);
                push_char(&mut res, u);
            }
            in_word = true;
            any_word = true;
        }
        proof {
            let rest = clean_rec(s@.skip(i + 1), in_word, any_word);
            assert(res@ + rest == spec_clean_string(s@)) by {
                assert(s@.skip(i as int).len() > 0);
            }
        }
        i = i + 1;
    }
    assert(s@.skip(len as int) =~= Seq::<char>::empty());
    assert(res@ == spec_clean_string(s@));
    proof {
        lemma_clean_rec_empty(s@, false, false);
    }
    if res.as_str().unicode_len() == 0 {
        Err(FelixError::EmptyName)
    } else {
        Ok(res)
    }
}

fn is_space_char(c: char) -> (b: bool)
    ensures
        b == is_space(c),
{
    c == ' ' || c == '\t' || c == '\n' || c == '\x0C' || c == '\r'
}

} // verus!
