//! The lexical filter: split recognized text on whitespace, strip each
//! token's non-alphanumeric edges, keep the tokens the dictionary
//! accepts or that carry a digit, and join the kept forms with single
//! spaces. The kept count is the cascade's acceptance measure.

use vstd::prelude::*;
use vstd::string::StrSliceExecFns;
use vstd::string::StringExecFns;

verus! {

/// Whether a character has the Unicode white-space property; the
/// result of char::is_whitespace, a function of the character alone.
pub uninterp spec fn is_white(c: char) -> bool;

/// Whether a character is Unicode-alphanumeric; the result of
/// char::is_alphanumeric, a function of the character alone.
pub uninterp spec fn is_alnum(c: char) -> bool;

/// Relies on char::is_whitespace: the White_Space property depends on
/// the character alone.
pub assume_specification[ char::is_whitespace ](c: char) -> (r: bool)
    ensures
        r == is_white(c),
;

/// Relies on char::is_alphanumeric: the Alphabetic-or-Number category
/// depends on the character alone.
pub assume_specification[ char::is_alphanumeric ](c: char) -> (r: bool)
    ensures
        r == is_alnum(c),
;

/// The set of strings a loaded dictionary accepts as correctly
/// spelled.
pub uninterp spec fn dict_words(d: zspell::Dictionary) -> Set<Seq<char>>;

/// A loaded spelling dictionary: a read-only word-membership oracle.
#[verifier::external_type_specification]
#[verifier::external_body]
pub struct ExDictionary(zspell::Dictionary);

/// Relies on zspell::Dictionary::check: a deterministic membership
/// test of the word against the dictionary's accepted strings, which
/// `dict_words` names.
#[verifier::external_body]
fn dict_check(dict: &zspell::Dictionary, word: &str) -> (r: bool)
    ensures
        r == dict_words(*dict).contains(word@),
{
    dict.check(word)
}

/// An ASCII decimal digit.
pub open spec fn is_digit(c: char) -> bool {
    48 <= c as u32 <= 57
}

fn digit_char(c: char) -> (r: bool)
    ensures
        r == is_digit(c),
{
    let u = c as u32;
    48 <= u && u <= 57
}

/// Length of the leading run of non-whitespace characters.
pub open spec fn token_end(s: Seq<char>) -> nat
    decreases s.len(),
{
    if s.len() == 0 {
        0
    } else if is_white(s[0]) {
        0
    } else {
        1 + token_end(s.drop_first())
    }
}

proof fn lemma_token_end_le_len(s: Seq<char>)
    ensures
        token_end(s) <= s.len(),
    decreases s.len(),
{
    if s.len() > 0 && !is_white(s[0]) {
        lemma_token_end_le_len(s.drop_first());
    }
}

/// The text's whitespace split: its maximal runs of non-whitespace
/// characters, in order.
pub open spec fn tokens_of(s: Seq<char>) -> Seq<Seq<char>>
    decreases s.len(),
    via tokens_of_decreases
{
    if s.len() == 0 {
        Seq::empty()
    } else if is_white(s[0]) {
        tokens_of(s.drop_first())
    } else {
        seq![s.take(token_end(s) as int)] + tokens_of(s.skip(token_end(s) as int))
    }
}

#[via_fn]
proof fn tokens_of_decreases(s: Seq<char>) {
    if s.len() > 0 && !is_white(s[0]) {
        lemma_token_end_le_len(s);
    }
}

/// The token without its leading non-alphanumeric characters.
pub open spec fn strip_front(t: Seq<char>) -> Seq<char>
    decreases t.len(),
{
    if t.len() == 0 {
        t
    } else if is_alnum(t[0]) {
        t
    } else {
        strip_front(t.drop_first())
    }
}

/// The token without its trailing non-alphanumeric characters.
pub open spec fn strip_back(t: Seq<char>) -> Seq<char>
    decreases t.len(),
{
    if t.len() == 0 {
        t
    } else if is_alnum(t.last()) {
        t
    } else {
        strip_back(t.drop_last())
    }
}

/// The token with both non-alphanumeric edges stripped.
pub open spec fn stripped(t: Seq<char>) -> Seq<char> {
    strip_back(strip_front(t))
}

/// Whether any character of the token is a decimal digit — the
/// number, date or code heuristic.
pub open spec fn has_digit(t: Seq<char>) -> bool {
    exists|i: int| 0 <= i < t.len() && is_digit(t[i])
}

/// A raw token is kept when its stripped form is non-empty and either
/// the dictionary accepts it or it carries a digit.
pub open spec fn token_kept(t: Seq<char>, dict: Set<Seq<char>>) -> bool {
    stripped(t).len() > 0 && (dict.contains(stripped(t)) || has_digit(stripped(t)))
}

/// The stripped forms of the kept tokens, in their original order.
pub open spec fn kept_tokens(s: Seq<char>, dict: Set<Seq<char>>) -> Seq<Seq<char>>
    decreases s.len(),
    via kept_tokens_decreases
{
    if s.len() == 0 {
        Seq::empty()
    } else if is_white(s[0]) {
        kept_tokens(s.drop_first(), dict)
    } else {
        let tok = s.take(token_end(s) as int);
        let rest = kept_tokens(s.skip(token_end(s) as int), dict);
        if token_kept(tok, dict) {
            seq![stripped(tok)] + rest
        } else {
            rest
        }
    }
}

#[via_fn]
proof fn kept_tokens_decreases(s: Seq<char>, dict: Set<Seq<char>>) {
    if s.len() > 0 && !is_white(s[0]) {
        lemma_token_end_le_len(s);
    }
}

/// Tokens joined by single spaces.
pub open spec fn join_spaced(ts: Seq<Seq<char>>) -> Seq<char>
    decreases ts.len(),
{
    if ts.len() == 0 {
        Seq::empty()
    } else if ts.len() == 1 {
        ts[0]
    } else {
        ts[0] + seq![' '] + join_spaced(ts.drop_first())
    }
}

/// The filter's cleaned text: the kept tokens, space-joined.
pub open spec fn cleaned_text(s: Seq<char>, dict: Set<Seq<char>>) -> Seq<char> {
    join_spaced(kept_tokens(s, dict))
}

/// The filter's valid-word count: how many tokens were kept.
pub open spec fn valid_count(s: Seq<char>, dict: Set<Seq<char>>) -> nat {
    kept_tokens(s, dict).len()
}

/// A token whose first `m` characters are non-whitespace and that ends
/// or turns white at `m` has its leading run end exactly there.
proof fn lemma_token_end_run(s: Seq<char>, m: int)
    requires
        0 <= m <= s.len(),
        forall|k: int| 0 <= k < m ==> !is_white(#[trigger] s[k]),
        m == s.len() || is_white(s[m]),
    ensures
        token_end(s) == m,
    decreases m,
{
    if m == 0 {
    } else {
        assert(!is_white(s[0]));
        assert(forall|k: int| 0 <= k < m - 1 ==> #[trigger] s.drop_first()[k] == s[k + 1]);
        lemma_token_end_run(s.drop_first(), m - 1);
    }
}

proof fn lemma_strip_front_run(t: Seq<char>, m: int)
    requires
        0 <= m <= t.len(),
        forall|k: int| 0 <= k < m ==> !is_alnum(#[trigger] t[k]),
        m == t.len() || is_alnum(t[m]),
    ensures
        strip_front(t) == t.skip(m),
    decreases m,
{
    if m == 0 {
        assert(t.skip(0) =~= t);
    } else {
        assert(!is_alnum(t[0]));
        assert(forall|k: int| 0 <= k < m - 1 ==> #[trigger] t.drop_first()[k] == t[k + 1]);
        lemma_strip_front_run(t.drop_first(), m - 1);
        assert(t.drop_first().skip(m - 1) =~= t.skip(m));
    }
}

proof fn lemma_strip_back_run(t: Seq<char>, m: int)
    requires
        0 <= m <= t.len(),
        forall|k: int| m <= k < t.len() ==> !is_alnum(#[trigger] t[k]),
        m == 0 || is_alnum(t[m - 1]),
    ensures
        strip_back(t) == t.take(m),
    decreases t.len(),
{
    if t.len() == 0 {
        assert(t.take(0) =~= t);
    } else if m == t.len() {
        assert(is_alnum(t.last()));
        assert(t.take(m) =~= t);
    } else {
        assert(!is_alnum(t.last()));
        lemma_strip_back_run(t.drop_last(), m);
        assert(t.drop_last().take(m) =~= t.take(m));
    }
}

/// Appending a token to a joined list puts one space before it, unless
/// the list was empty.
proof fn lemma_join_push(ts: Seq<Seq<char>>, t: Seq<char>)
    ensures
        join_spaced(ts.push(t)) == (if ts.len() == 0 {
            t
        } else {
            join_spaced(ts) + seq![' '] + t
        }),
    decreases ts.len(),
{
    let p = ts.push(t);
    if ts.len() == 0 {
        assert(p.len() == 1);
        assert(p[0] == t);
    } else if ts.len() == 1 {
        assert(p.len() == 2);
        assert(p[0] == ts[0]);
        assert(p.drop_first() =~= seq![t]);
        assert(join_spaced(seq![t]) == t);
    } else {
        assert(p[0] == ts[0]);
        assert(p.drop_first() =~= ts.drop_first().push(t));
        lemma_join_push(ts.drop_first(), t);
        assert((ts[0] + seq![' '] + (join_spaced(ts.drop_first()) + seq![' '] + t)) =~= ((ts[0]
            + seq![' '] + join_spaced(ts.drop_first())) + seq![' '] + t));
    }
}

/// An index sequence that picks `kept` out of `raws`, strictly in
/// order, each kept entry the stripped form of the raw token it picks.
pub open spec fn selection_of(ix: Seq<int>, raws: Seq<Seq<char>>, kept: Seq<Seq<char>>) -> bool {
    &&& ix.len() == kept.len()
    &&& forall|k: int| 0 <= k < ix.len() ==> 0 <= #[trigger] ix[k] < raws.len()
    &&& forall|k: int| 0 <= k < ix.len() ==> kept[k] == stripped(raws[#[trigger] ix[k]])
    &&& forall|k1: int, k2: int| 0 <= k1 < k2 < ix.len() ==> ix[k1] < ix[k2]
}

/// Law: the lexical filter never yields more tokens than the raw
/// text's whitespace split, never reorders what it keeps, and never
/// fabricates a token: the kept list is the image, under stripping, of
/// a strictly increasing selection of positions in the raw token list.
pub proof fn lemma_lexical_filter_order(s: Seq<char>, dict: Set<Seq<char>>)
    ensures
        kept_tokens(s, dict).len() <= tokens_of(s).len(),
        exists|ix: Seq<int>| selection_of(ix, tokens_of(s), kept_tokens(s, dict)),
    decreases s.len(),
{
    if s.len() == 0 {
        let ix = Seq::<int>::empty();
        assert(selection_of(ix, tokens_of(s), kept_tokens(s, dict)));
    } else if is_white(s[0]) {
        lemma_lexical_filter_order(s.drop_first(), dict);
    } else {
        lemma_token_end_le_len(s);
        let te = token_end(s) as int;
        let tok = s.take(te);
        let raws = tokens_of(s);
        let kept = kept_tokens(s, dict);
        let sub_raws = tokens_of(s.skip(te));
        let sub_kept = kept_tokens(s.skip(te), dict);
        lemma_lexical_filter_order(s.skip(te), dict);
        let sub_ix = choose|ix: Seq<int>| selection_of(ix, sub_raws, sub_kept);
        let moved = sub_ix.map_values(|x: int| x + 1);
        assert(raws == seq![tok] + sub_raws);
        assert(forall|m: int| 0 <= m < sub_raws.len() ==> raws[m + 1] == sub_raws[m]);
        if token_kept(tok, dict) {
            let ix = seq![0int] + moved;
            assert(kept == seq![stripped(tok)] + sub_kept);
            assert forall|k: int| 0 <= k < ix.len() implies 0 <= #[trigger] ix[k] < raws.len()
                && kept[k] == stripped(raws[ix[k]]) by {
                if k > 0 {
                    assert(ix[k] == sub_ix[k - 1] + 1);
                    assert(kept[k] == sub_kept[k - 1]);
                }
            }
            assert forall|k1: int, k2: int| 0 <= k1 < k2 < ix.len() implies ix[k1] < ix[k2] by {
                if k1 > 0 {
                    assert(ix[k1] == sub_ix[k1 - 1] + 1);
                }
                assert(ix[k2] == sub_ix[k2 - 1] + 1);
            }
            assert(selection_of(ix, raws, kept));
        } else {
            let ix = moved;
            assert(kept == sub_kept);
            assert forall|k: int| 0 <= k < ix.len() implies 0 <= #[trigger] ix[k] < raws.len()
                && kept[k] == stripped(raws[ix[k]]) by {
                assert(ix[k] == sub_ix[k] + 1);
            }
            assert forall|k1: int, k2: int| 0 <= k1 < k2 < ix.len() implies ix[k1] < ix[k2] by {
                assert(ix[k1] == sub_ix[k1] + 1);
                assert(ix[k2] == sub_ix[k2] + 1);
            }
            assert(selection_of(ix, raws, kept));
        }
    }
}

fn str_has_digit(t: &str) -> (r: bool)
    ensures
        r == has_digit(t@),
{
    let n = t.unicode_len();
    let mut k: usize = 0;
    while k < n
        invariant
            0 <= k <= n,
            n == t@.len(),
            forall|m: int| 0 <= m < k ==> !is_digit(#[trigger] t@[m]),
        decreases n - k,
    {
        if digit_char(t.get_char(k)) {
            proof {
                assert(0 <= k < t@.len() && is_digit(t@[k as int]));
            }
            return true;
        }
        k = k + 1;
    }
    false
}

/// Run the lexical filter: split `raw` on whitespace, strip each
/// token's non-alphanumeric edges, keep a token when the dictionary
/// accepts its stripped form or the form carries a digit, and return
/// the kept forms space-joined together with their count.
pub fn filter_text(raw: &str, dict: &zspell::Dictionary) -> (r: (String, usize))
    ensures
        r.0@ == cleaned_text(raw@, dict_words(*dict)),
        r.1 == valid_count(raw@, dict_words(*dict)),
        r.1 <= tokens_of(raw@).len(),
{
    let ghost d = dict_words(*dict);
    let n = raw.unicode_len();
    let mut out = String::new();
    let mut count: usize = 0;
    let ghost mut done: Seq<Seq<char>> = Seq::empty();
    let mut i: usize = 0;
    proof {
        assert(raw@.skip(0) =~= raw@);
        assert(Seq::<Seq<char>>::empty() + kept_tokens(raw@, d) =~= kept_tokens(raw@, d));
    }
    while i < n
        invariant
            0 <= i <= n,
            n == raw@.len(),
            d == dict_words(*dict),
            count == done.len(),
            count <= i,
            out@ == join_spaced(done),
            kept_tokens(raw@, d) == done + kept_tokens(raw@.skip(i as int), d),
        decreases n - i,
    {
        let ghost suf = raw@.skip(i as int);
        proof {
            assert(suf.len() == n - i);
            assert(forall|k: int| 0 <= k < suf.len() ==> #[trigger] suf[k] == raw@[i + k]);
        }
        let c = raw.get_char(i);
        if c.is_whitespace() {
            proof {
                assert(is_white(suf[0]));
                assert(suf.drop_first() =~= raw@.skip(i + 1));
                assert(kept_tokens(suf, d) == kept_tokens(raw@.skip(i + 1), d));
            }
            i = i + 1;
        } else {
            let mut j = i + 1;
            while j < n && !raw.get_char(j).is_whitespace()
                invariant
                    i < j <= n,
                    n == raw@.len(),
                    forall|k: int| i <= k < j ==> !is_white(#[trigger] raw@[k]),
                decreases n - j,
            {
                j = j + 1;
            }
            proof {
                lemma_token_end_run(suf, j - i);
                assert(token_end(suf) == j - i);
                assert(suf.take(j - i) =~= raw@.subrange(i as int, j as int));
                assert(suf.skip(j - i) =~= raw@.skip(j as int));
            }
            let ghost tok = raw@.subrange(i as int, j as int);
            let mut a = i;
            while a < j && !raw.get_char(a).is_alphanumeric()
                invariant
                    i <= a <= j <= n,
                    n == raw@.len(),
                    forall|k: int| i <= k < a ==> !is_alnum(#[trigger] raw@[k]),
                decreases j - a,
            {
                a = a + 1;
            }
            if a == j {
                // the whole token strips away: it is dropped
                proof {
                    lemma_strip_front_run(tok, j - i);
                    assert(tok.skip(j - i) =~= Seq::<char>::empty());
                    assert(strip_back(Seq::<char>::empty()) =~= Seq::<char>::empty());
                    assert(!token_kept(tok, d));
                    assert(kept_tokens(suf, d) == kept_tokens(raw@.skip(j as int), d));
                }
            } else {
                let mut b = j;
                while !raw.get_char(b - 1).is_alphanumeric()
                    invariant
                        i <= a < b <= j <= n,
                        n == raw@.len(),
                        is_alnum(raw@[a as int]),
                        forall|k: int| b <= k < j ==> !is_alnum(#[trigger] raw@[k]),
                    decreases b,
                {
                    b = b - 1;
                }
                proof {
                    lemma_strip_front_run(tok, a - i);
                    assert(tok.skip(a - i) =~= raw@.subrange(a as int, j as int));
                    lemma_strip_back_run(raw@.subrange(a as int, j as int), b - a);
                    assert(raw@.subrange(a as int, j as int).take(b - a) =~= raw@.subrange(
                        a as int,
                        b as int,
                    ));
                    assert(stripped(tok) == raw@.subrange(a as int, b as int));
                }
                let word = raw.substring_char(a, b);
                let in_dict = dict_check(dict, word);
                let word_has_digit = str_has_digit(word);
                if in_dict || word_has_digit {
                    proof {
                        assert(token_kept(tok, d));
                        assert(kept_tokens(suf, d) == seq![stripped(tok)] + kept_tokens(
                            raw@.skip(j as int),
                            d,
                        ));
                    }
                    if count > 0 {
                        out.append(" ");
                        proof {
                            reveal_strlit(" ");
                            assert(" "@ =~= seq![' ']);
                        }
                    }
                    out.append(word);
                    proof {
                        lemma_join_push(done, stripped(tok));
                        done = done.push(stripped(tok));
                        assert(done + kept_tokens(raw@.skip(j as int), d) =~= done.drop_last()
                            + (seq![stripped(tok)] + kept_tokens(raw@.skip(j as int), d)));
                    }
                    count = count + 1;
                } else {
                    proof {
                        assert(!token_kept(tok, d));
                        assert(kept_tokens(suf, d) == kept_tokens(raw@.skip(j as int), d));
                    }
                }
            }
            i = j;
        }
    }
    proof {
        assert(raw@.skip(n as int) =~= Seq::<char>::empty());
        assert(kept_tokens(Seq::<char>::empty(), d) =~= Seq::<Seq<char>>::empty());
        assert(done + Seq::<Seq<char>>::empty() =~= done);
        assert(done == kept_tokens(raw@, d));
        lemma_lexical_filter_order(raw@, d);
    }
    (out, count)
}

} // verus!
