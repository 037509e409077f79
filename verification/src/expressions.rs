//! How the text of a filter is read.
use vstd::prelude::*;
use vstd::string::*;

use crate::github::Workflow;
use crate::query::{self, ClauseModel, NumeralsModel, SortModel, TokenizerModel};
use crate::text::{self, CharClass};
use crate::texts;

verus! {

/// Whether a part of a text lies between two characters of a class, or the ends of the text, and
/// holds none.
pub open spec fn is_piece(s: Seq<char>, class: CharClass, i: int, j: int) -> bool {
    &&& 0 <= i <= j <= s.len()
    &&& i == 0 || class.has(s[i - 1])
    &&& j == s.len() || class.has(s[j])
    &&& forall|k: int| i <= k < j ==> !class.has(#[trigger] s[k])
}

proof fn lemma_pieces(s: Seq<char>, class: CharClass, w: Seq<char>)
    ensures
        text::pieces(s, class).contains(w) <==> exists|i: int, j: int|
            #[trigger] is_piece(s, class, i, j) && w == s.subrange(i, j),
    decreases s.len(),
{
    text::lemma_class_from(s, class, 0);
    let at = text::class_from(s, class, 0);
    let all = text::pieces(s, class);
    if at < s.len() {
        let rest = s.skip(at + 1);
        lemma_pieces(rest, class, w);
        let tail = text::pieces(rest, class);
        assert(all == seq![s.take(at)] + tail);
        if all.contains(w) {
            let k = choose|k: int| 0 <= k < all.len() && all[k] == w;
            if k == 0 {
                assert(s.take(at) =~= s.subrange(0, at));
                assert(is_piece(s, class, 0, at));
            } else {
                assert(tail[k - 1] == w);
                assert(tail.contains(w));
                let (i, j) = choose|i: int, j: int|
                    #[trigger] is_piece(rest, class, i, j) && w == rest.subrange(i, j);
                assert(is_piece(s, class, i + at + 1, j + at + 1)) by {
                    assert(i == 0 || rest[i - 1] == s[i + at]);
                    assert(j == rest.len() || rest[j] == s[j + at + 1]);
                    assert forall|k: int| i + at + 1 <= k < j + at + 1 implies !class.has(
                        #[trigger] s[k],
                    ) by {
                        assert(rest[k - at - 1] == s[k]);
                    }
                }
                assert(rest.subrange(i, j) =~= s.subrange(i + at + 1, j + at + 1));
            }
        }
        if exists|i: int, j: int| #[trigger] is_piece(s, class, i, j) && w == s.subrange(i, j) {
            let (i, j) = choose|i: int, j: int|
                #[trigger] is_piece(s, class, i, j) && w == s.subrange(i, j);
            if i <= at {
                if j > at {
                    assert(!class.has(s[at]));
                }
                if i > 0 {
                    assert(!class.has(s[i - 1]));
                }
                if j < at {
                    assert(!class.has(s[j]));
                }
                assert(s.subrange(i, j) =~= s.take(at));
                assert(all[0] == w);
            } else {
                assert(is_piece(rest, class, i - at - 1, j - at - 1)) by {
                    assert(i - at - 1 == 0 || rest[i - at - 2] == s[i - 1]);
                    assert(j == s.len() || rest[j - at - 1] == s[j]);
                    assert forall|k: int| i - at - 1 <= k < j - at - 1 implies !class.has(
                        #[trigger] rest[k],
                    ) by {
                        assert(rest[k] == s[k + at + 1]);
                    }
                }
                assert(rest.subrange(i - at - 1, j - at - 1) =~= s.subrange(i, j));
                assert(tail.contains(w));
                let k = choose|k: int| 0 <= k < tail.len() && tail[k] == w;
                assert(all[k + 1] == w);
            }
        }
    } else {
        assert(all == seq![s]);
        assert(s.subrange(0, s.len() as int) =~= s);
        if all.contains(w) {
            assert(all[0] == w);
            assert(is_piece(s, class, 0, s.len() as int));
        }
        if exists|i: int, j: int| #[trigger] is_piece(s, class, i, j) && w == s.subrange(i, j) {
            let (i, j) = choose|i: int, j: int|
                #[trigger] is_piece(s, class, i, j) && w == s.subrange(i, j);
            if i > 0 {
                assert(!class.has(s[i - 1]));
            }
            if j < s.len() {
                assert(!class.has(s[j]));
            }
            assert(all[0] == w);
        }
    }
}

/// Whether a part of a text is a word: letters and digits, with none right before or behind them.
pub open spec fn is_word_at(s: Seq<char>, i: int, j: int) -> bool {
    is_piece(s, CharClass::NotAlphanumeric, i, j)
}

/// A text without a star and without a field holds of a workflow where a word of its name begins
/// with it, whatever the case.
pub proof fn law_text_asks_for_words(
    workflow: Workflow,
    expected: Seq<char>,
    numerals: NumeralsModel,
)
    requires
        forall|k: int| 0 <= k < expected.len() ==> #[trigger] expected[k] != '*',
    ensures
        query::value_holds(workflow, None, expected, numerals) <==> exists|i: int, j: int|
            #[trigger] is_word_at(workflow.name@, i, j) && text::begins_with(
                text::lowercase(workflow.name@.subrange(i, j)),
                text::lowercase(expected),
            ),
{
    reveal_strlit("*");
    let name = workflow.name@;
    let class = CharClass::NotAlphanumeric;
    let words = text::pieces(name, class);
    if text::holds_text(expected, "*"@) {
        let i = choose|i: int| text::occurs_at(expected, "*"@, i);
        assert(expected.subrange(i, i + 1)[0] == '*');
        assert(expected[i] == '*');
    }
    if query::text_matched(workflow, expected, numerals) {
        let n = choose|n: int|
            0 <= n < words.len() && text::begins_with(
                text::lowercase(#[trigger] words[n]),
                text::lowercase(expected),
            );
        lemma_pieces(name, class, words[n]);
        assert(words.contains(words[n]));
        let (i, j) = choose|i: int, j: int|
            #[trigger] is_piece(name, class, i, j) && words[n] == name.subrange(i, j);
        assert(is_word_at(name, i, j));
    }
    if exists|i: int, j: int|
        #[trigger] is_word_at(name, i, j) && text::begins_with(
            text::lowercase(name.subrange(i, j)),
            text::lowercase(expected),
        ) {
        let (i, j) = choose|i: int, j: int|
            #[trigger] is_word_at(name, i, j) && text::begins_with(
                text::lowercase(name.subrange(i, j)),
                text::lowercase(expected),
            );
        assert(is_piece(name, class, i, j));
        lemma_pieces(name, class, name.subrange(i, j));
        let n = choose|n: int| 0 <= n < words.len() && words[n] == name.subrange(i, j);
        assert(text::begins_with(text::lowercase(words[n]), text::lowercase(expected)));
    }
}

/// Whether a text holds no blank, no quote and no backslash.
pub open spec fn is_unquoted(t: Seq<char>) -> bool {
    forall|k: int|
        0 <= k < t.len() ==> !text::is_space(#[trigger] t[k]) && t[k] != '\'' && t[k] != '"' && t[k]
            != '\\'
}

proof fn lemma_tokenizer_goes_on(before: Seq<char>, t: Seq<char>)
    requires
        is_unquoted(t),
        tokenizer_idle(query::tokenizer_after(before)),
    ensures
        query::tokenizer_after(before + t) == (TokenizerModel {
            token: query::tokenizer_after(before).token + t,
            ..query::tokenizer_after(before)
        }),
    decreases t.len(),
{
    if t.len() == 0 {
        assert(before + t =~= before);
        assert(query::tokenizer_after(before).token + t =~= query::tokenizer_after(before).token);
    } else {
        let front = t.drop_last();
        assert forall|k: int| 0 <= k < front.len() implies !text::is_space(#[trigger] front[k])
            && front[k] != '\'' && front[k] != '"' && front[k] != '\\' by {
            assert(front[k] == t[k]);
        }
        lemma_tokenizer_goes_on(before, front);
        assert((before + t).drop_last() =~= before + front);
        assert((before + t).last() == t[t.len() - 1]);
        let start = query::tokenizer_after(before).token;
        assert((start + front).push(t.last()) =~= start + t);
    }
}

/// Whether a tokenizer stands in no quotes and behind no backslash.
pub open spec fn tokenizer_idle(tokenizer: TokenizerModel) -> bool {
    tokenizer.quote is None && !tokenizer.escaped
}

/// A text without blanks, quotes and backslashes is one token; two such texts with a blank between
/// them are two.
pub proof fn law_blanks_part_tokens(a: Seq<char>, b: Seq<char>)
    requires
        is_unquoted(a),
        is_unquoted(b),
        a.len() > 0,
        b.len() > 0,
    ensures
        query::tokens_of(a) == Ok::<Seq<Seq<char>>, Seq<char>>(seq![a]),
        query::tokens_of(a + " "@ + b) == Ok::<Seq<Seq<char>>, Seq<char>>(seq![a, b]),
{
    reveal_strlit(" ");
    let none = Seq::<char>::empty();
    assert(none + a =~= a);
    lemma_tokenizer_goes_on(none, a);
    assert(Seq::<char>::empty() + a =~= a);
    assert(Seq::<Seq<char>>::empty().push(a) =~= seq![a]);
    let blank = a + " "@;
    assert(blank.drop_last() =~= a);
    assert(blank.last() == ' ');
    assert(text::is_space(' '));
    let after = query::tokenizer_after(blank);
    assert(after.tokens =~= seq![a]);
    lemma_tokenizer_goes_on(blank, b);
    assert(after.token + b =~= b);
    assert(seq![a].push(b) =~= seq![a, b]);
}

/// What stands in quotes is one token without them, blanks and all.
pub proof fn law_quotes_keep_blanks(t: Seq<char>)
    requires
        t.len() > 0,
        forall|k: int| 0 <= k < t.len() ==> #[trigger] t[k] != '"' && t[k] != '\\',
    ensures
        query::tokens_of("\""@ + t + "\""@) == Ok::<Seq<Seq<char>>, Seq<char>>(seq![t]),
        query::tokens_of("\""@ + t) is Err,
{
    reveal_strlit("\"");
    lemma_quoted(t);
    let open = "\""@ + t;
    let closed = "\""@ + t + "\""@;
    assert(closed.drop_last() =~= open);
    assert(closed.last() == '"');
    assert(Seq::<Seq<char>>::empty().push(t) =~= seq![t]);
}

proof fn lemma_quoted(t: Seq<char>)
    requires
        forall|k: int| 0 <= k < t.len() ==> #[trigger] t[k] != '"' && t[k] != '\\',
    ensures
        query::tokenizer_after("\""@ + t) == (TokenizerModel {
            token: t,
            quote: Some('"'),
            ..TokenizerModel::start()
        }),
    decreases t.len(),
{
    reveal_strlit("\"");
    let all = "\""@ + t;
    if t.len() == 0 {
        assert(all.drop_last() =~= Seq::<char>::empty());
        assert(query::tokenizer_after(all.drop_last()) == TokenizerModel::start());
        assert(all.last() == '"');
        assert(t =~= Seq::<char>::empty());
    } else {
        let front = t.drop_last();
        assert forall|k: int| 0 <= k < front.len() implies #[trigger] front[k] != '"' && front[k]
            != '\\' by {
            assert(front[k] == t[k]);
        }
        lemma_quoted(front);
        assert(all.drop_last() =~= "\""@ + front);
        assert(all.last() == t[t.len() - 1]);
        assert(front.push(t.last()) =~= t);
    }
}

/// A token with a colon names a field before the first colon and values behind it.
pub proof fn law_tokens_name_field_and_value(field: Seq<char>, value: Seq<char>)
    requires
        field.len() > 0,
        field[0] != '-',
        forall|k: int| 0 <= k < field.len() ==> #[trigger] field[k] != ':',
        value.len() > 0,
        value[0] != '@',
        forall|k: int| 0 <= k < value.len() ==> #[trigger] value[k] != ',',
    ensures
        query::clause_of(field + ":"@ + value) == Ok::<ClauseModel, Seq<char>>(
            ClauseModel { negated: false, field: Some(field), values: seq![value] },
        ),
        query::clause_of("-"@ + (field + ":"@ + value)) == Ok::<ClauseModel, Seq<char>>(
            ClauseModel { negated: true, field: Some(field), values: seq![value] },
        ),
{
    reveal_strlit(":");
    reveal_strlit("-");
    reveal_strlit("@");
    let token = field + ":"@ + value;
    assert(token[0] == field[0]);
    if text::begins_with(token, "-"@) {
        assert(token.subrange(0, 1)[0] == '-');
    }
    let minus = "-"@ + token;
    assert(minus.subrange(0, 1) =~= "-"@);
    assert(minus.skip(1) =~= token);
    let at = field.len() as int;
    assert(text::occurs_at(token, ":"@, at)) by {
        assert(token.subrange(at, at + 1) =~= ":"@);
    }
    text::lemma_first_from(token, ":"@, 0);
    assert forall|i: int| 0 <= i < at implies !text::occurs_at(token, ":"@, i) by {
        assert(token[i] == field[i]);
        if text::occurs_at(token, ":"@, i) {
            assert(token.subrange(i, i + 1)[0] == ':');
        }
    }
    assert(text::first_at(token, ":"@) == Some(at));
    assert(token.take(at) =~= field);
    assert(token.skip(at + 1) =~= value);
    text::lemma_class_from(value, CharClass::Is(','), 0);
    let comma = text::class_from(value, CharClass::Is(','), 0);
    if comma < value.len() {
        assert(value[comma] == ',');
    }
    let values = seq![value];
    assert(text::pieces(value, CharClass::Is(',')) == values);
    if text::begins_with(value, "@"@) {
        assert(value.subrange(0, 1)[0] == '@');
    }
    assert(values.drop_last() =~= Seq::<Seq<char>>::empty());
    assert(query::first_keyword(values.drop_last()) is None);
}

/// Commas part the values of a clause.
pub proof fn law_commas_part_values(token: Seq<char>, value: Seq<char>)
    ensures
        query::clause_of(token) matches Ok(clause) ==> (clause.values.contains(value) ==> forall|k: int|
            0 <= k < value.len() ==> #[trigger] value[k] != ','),
{
    if let Ok(clause) = query::clause_of(token) {
        if clause.values.contains(value) {
            let negated = text::begins_with(token, "-"@);
            let body = if negated {
                token.skip(1)
            } else {
                token
            };
            let all = match text::cut_first(body, ":"@) {
                Some((_, value)) => value,
                None => body,
            };
            lemma_pieces(all, CharClass::Is(','), value);
            let (i, j) = choose|i: int, j: int|
                #[trigger] is_piece(all, CharClass::Is(','), i, j) && value == all.subrange(i, j);
            assert forall|k: int| 0 <= k < value.len() implies #[trigger] value[k] != ',' by {
                assert(value[k] == all[i + k]);
            }
        }
    }
}

/// A sort names a field, and a direction behind a colon; without a direction it ascends.
pub proof fn law_sorts_name_field_and_direction(field: Seq<char>)
    requires
        field.len() > 0,
        forall|k: int|
            0 <= k < field.len() ==> #[trigger] field[k] != ':' && field[k] != '"' && field[k]
                != '\'' && !text::is_space(field[k]),
    ensures
        query::sort_of(field) == Ok::<SortModel, Seq<char>>(SortModel { field, descending: false }),
        query::sort_of(field + ":asc"@) == Ok::<SortModel, Seq<char>>(
            SortModel { field, descending: false },
        ),
        query::sort_of(field + ":desc"@) == Ok::<SortModel, Seq<char>>(
            SortModel { field, descending: true },
        ),
{
    reveal_strlit(":asc");
    reveal_strlit(":desc");
    reveal_strlit(":");
    reveal_strlit("asc");
    reveal_strlit("desc");
    lemma_untrimmed(field);
    text::lemma_last_upto(field, ":"@, field.len() as int);
    if let Some(i) = text::last_at(field, ":"@) {
        assert(field.subrange(i, i + 1)[0] == ':');
        assert(field[i] == ':');
    }
    lemma_directed(field, "asc"@);
    lemma_directed(field, "desc"@);
    assert(field + ":asc"@ =~= field + ":"@ + "asc"@);
    assert(field + ":desc"@ =~= field + ":"@ + "desc"@);
    assert("asc"@.len() == 3 && "desc"@.len() == 4);
}

proof fn lemma_untrimmed(t: Seq<char>)
    requires
        t.len() > 0,
        forall|k: int|
            0 <= k < t.len() ==> #[trigger] t[k] != '"' && t[k] != '\'' && !text::is_space(t[k]),
    ensures
        text::trimmed(t) == t,
        text::trim_of(t, CharClass::Quote) == t,
{
    assert(t[0] != '"' && !text::is_space(t[0]));
    assert(t.last() == t[t.len() - 1]);
}

proof fn lemma_directed(field: Seq<char>, direction: Seq<char>)
    requires
        field.len() > 0,
        forall|k: int|
            0 <= k < field.len() ==> #[trigger] field[k] != ':' && field[k] != '"' && field[k]
                != '\'' && !text::is_space(field[k]),
        direction.len() > 0,
        forall|k: int| 0 <= k < direction.len() ==> 'a' <= #[trigger] direction[k] <= 'z',
    ensures
        ({
            let all = field + ":"@ + direction;
            &&& text::trimmed(all) == all
            &&& text::cut_last(all, ":"@) == Some((field, direction))
        }),
{
    reveal_strlit(":");
    let all = field + ":"@ + direction;
    assert forall|k: int| 0 <= k < all.len() implies #[trigger] all[k] != '"' && all[k] != '\''
        && !text::is_space(all[k]) by {
        if k < field.len() {
            assert(all[k] == field[k]);
        } else if k > field.len() {
            assert(all[k] == direction[k - field.len() - 1]);
        }
    }
    lemma_untrimmed(all);
    let at = field.len() as int;
    assert(all.subrange(at, at + 1) =~= ":"@);
    assert(text::occurs_at(all, ":"@, at));
    text::lemma_last_upto(all, ":"@, all.len() as int);
    if let Some(i) = text::last_at(all, ":"@) {
        if i > at {
            assert(all.subrange(i, i + 1)[0] == ':');
            assert(all[i] == direction[i - at - 1]);
        }
    }
    assert(all.take(at) =~= field);
    assert(all.skip(at + 1) =~= direction);
}

/// A backslash takes the character behind it as it stands: a blank behind one does not part a
/// token.
pub proof fn law_backslash_keeps_blank(a: Seq<char>, b: Seq<char>)
    requires
        is_unquoted(a),
        is_unquoted(b),
    ensures
        query::tokens_of(a + "\\ "@ + b) == Ok::<Seq<Seq<char>>, Seq<char>>(seq![a + " "@ + b]),
{
    reveal_strlit(" ");
    reveal_strlit("\\ ");
    let none = Seq::<char>::empty();
    assert(none + a =~= a);
    lemma_tokenizer_goes_on(none, a);
    assert(Seq::<char>::empty() + a =~= a);
    let slash = a.push('\\');
    assert(slash.drop_last() =~= a);
    let blank = a + "\\ "@;
    assert(blank =~= slash.push(' '));
    assert(blank.drop_last() =~= slash);
    assert(blank.last() == ' ');
    let after = query::tokenizer_after(blank);
    assert(query::tokenizer_after(slash).escaped);
    assert(after.token =~= a + " "@);
    lemma_tokenizer_goes_on(blank, b);
    assert(Seq::<Seq<char>>::empty().push(a + " "@ + b) =~= seq![a + " "@ + b]);
}

/// The clauses of a filter are those of its tokens in their order; the first token that gives none
/// tells what is wrong.
pub proof fn law_filters_read_tokens(a: Seq<char>, b: Seq<char>)
    requires
        is_unquoted(a),
        is_unquoted(b),
        a.len() > 0,
        b.len() > 0,
    ensures
        query::filter_of(a) == (match query::clause_of(a) {
            Ok(clause) => Ok::<Seq<ClauseModel>, Seq<char>>(seq![clause]),
            Err(message) => Err(message),
        }),
        query::filter_of(a + " "@ + b) == (match (query::clause_of(a), query::clause_of(b)) {
            (Ok(one), Ok(two)) => Ok::<Seq<ClauseModel>, Seq<char>>(seq![one, two]),
            (Err(message), _) => Err(message),
            (_, Err(message)) => Err(message),
        }),
{
    law_blanks_part_tokens(a, b);
    let none = Seq::<Seq<char>>::empty();
    let empty = Seq::<ClauseModel>::empty();
    let one = seq![a];
    let two = seq![a, b];
    assert(one.drop_last() =~= none);
    assert(query::clauses_of(none) == Ok::<Seq<ClauseModel>, Seq<char>>(empty));
    assert(two.drop_last() =~= one);
    if let Ok(clause) = query::clause_of(a) {
        assert(empty.push(clause) =~= seq![clause]);
        if let Ok(other) = query::clause_of(b) {
            assert(seq![clause].push(other) =~= seq![clause, other]);
        }
    }
}

/// A clause of nothing, one without a value and one with a keyword as a value are refused.
pub proof fn law_bad_clauses_are_refused(field: Seq<char>, word: Seq<char>)
    requires
        field.len() > 0,
        field[0] != '-',
        forall|k: int| 0 <= k < field.len() ==> #[trigger] field[k] != ':',
        forall|k: int| 0 <= k < word.len() ==> #[trigger] word[k] != ',',
    ensures
        query::clause_of("-"@) is Err,
        query::clause_of(field + ":"@) is Err,
        query::clause_of(field + ":"@ + ("@"@ + word)) is Err,
{
    reveal_strlit(":");
    reveal_strlit("-");
    reveal_strlit("@");
    let none = Seq::<char>::empty();
    assert("-"@.subrange(0, 1) =~= "-"@);
    assert("-"@.skip(1) =~= none);
    let bare = field + ":"@;
    assert(bare =~= field + ":"@ + none);
    lemma_field_cut(field, none);
    let value = "@"@ + word;
    lemma_field_cut(field, value);
    let class = CharClass::Is(',');
    text::lemma_class_from(value, class, 0);
    let comma = text::class_from(value, class, 0);
    if comma < value.len() {
        assert(value[comma] == ',');
        if comma > 0 {
            assert(value[comma] == word[comma - 1]);
        }
    }
    let values = seq![value];
    assert(text::pieces(value, class) == values);
    assert(value.subrange(0, 1) =~= "@"@);
    assert(values.drop_last() =~= Seq::<Seq<char>>::empty());
    assert(query::first_keyword(values.drop_last()) is None);
}

proof fn lemma_field_cut(field: Seq<char>, value: Seq<char>)
    requires
        field.len() > 0,
        field[0] != '-',
        forall|k: int| 0 <= k < field.len() ==> #[trigger] field[k] != ':',
    ensures
        !text::begins_with(field + ":"@ + value, "-"@),
        text::cut_first(field + ":"@ + value, ":"@) == Some((field, value)),
{
    reveal_strlit(":");
    reveal_strlit("-");
    let token = field + ":"@ + value;
    assert(token[0] == field[0]);
    if text::begins_with(token, "-"@) {
        assert(token.subrange(0, 1)[0] == '-');
    }
    assert forall|k: int| 0 <= k < field.len() implies !text::occurs_at(token, ":"@, k) by {
        assert(token[k] == field[k]);
        if text::occurs_at(token, ":"@, k) {
            assert(token.subrange(k, k + 1)[0] == ':');
        }
    }
    texts::law_cut_is_at_first(field, ":"@, value);
}

/// A clause has all the values that commas part, in their order.
pub proof fn law_values_are_all_read(field: Seq<char>, a: Seq<char>, b: Seq<char>)
    requires
        field.len() > 0,
        field[0] != '-',
        forall|k: int| 0 <= k < field.len() ==> #[trigger] field[k] != ':',
        forall|k: int| 0 <= k < a.len() ==> #[trigger] a[k] != ',' && a[k] != '@',
        forall|k: int| 0 <= k < b.len() ==> #[trigger] b[k] != ',' && b[k] != '@',
    ensures
        query::clause_of(field + ":"@ + (a + ","@ + b)) == Ok::<ClauseModel, Seq<char>>(
            ClauseModel { negated: false, field: Some(field), values: seq![a, b] },
        ),
{
    reveal_strlit(",");
    reveal_strlit("@");
    let value = a + ","@ + b;
    lemma_field_cut(field, value);
    let class = CharClass::Is(',');
    text::lemma_class_from(value, class, 0);
    text::lemma_class_from(b, class, 0);
    let comma = text::class_from(value, class, 0);
    assert(value[a.len() as int] == ',');
    if comma < a.len() {
        assert(value[comma] == a[comma]);
    }
    assert(value.take(comma) =~= a);
    assert(value.skip(comma + 1) =~= b);
    let last = text::class_from(b, class, 0);
    if last < b.len() {
        assert(b[last] == ',');
    }
    assert(text::pieces(b, class) == seq![b]);
    let values = seq![a, b];
    assert(text::pieces(value, class) =~= values);
    let one = seq![a];
    assert(values.drop_last() =~= one);
    assert(one.drop_last() =~= Seq::<Seq<char>>::empty());
    assert(query::first_keyword(one.drop_last()) is None);
    if text::begins_with(a, "@"@) {
        assert(a.subrange(0, 1)[0] == '@');
        assert(a[0] == '@');
    }
    if text::begins_with(b, "@"@) {
        assert(b.subrange(0, 1)[0] == '@');
        assert(b[0] == '@');
    }
    assert(query::first_keyword(one) is None);
    assert(query::first_keyword(values) is None);
}

/// A sort without a field and one in no known direction are refused.
pub proof fn law_bad_sorts_are_refused(field: Seq<char>, direction: Seq<char>)
    requires
        field.len() > 0,
        forall|k: int|
            0 <= k < field.len() ==> #[trigger] field[k] != ':' && field[k] != '"' && field[k]
                != '\'' && !text::is_space(field[k]),
        direction.len() > 0,
        forall|k: int| 0 <= k < direction.len() ==> 'a' <= #[trigger] direction[k] <= 'z',
        direction != "asc"@,
        direction != "desc"@,
    ensures
        query::sort_of(field + ":"@ + direction) is Err,
        query::sort_of(Seq::empty()) is Err,
{
    lemma_directed(field, direction);
    assert(text::trim_start_of(Seq::<char>::empty(), CharClass::Space) == Seq::<char>::empty());
    reveal_strlit("asc");
    reveal_strlit("desc");
    if query::same_letters(direction, "asc"@) {
        assert forall|k: int| 0 <= k < direction.len() implies direction[k] == "asc"@[k] by {
            assert(query::same_letter(direction[k], "asc"@[k]));
        }
        assert(direction =~= "asc"@);
    }
    if query::same_letters(direction, "desc"@) {
        assert forall|k: int| 0 <= k < direction.len() implies direction[k] == "desc"@[k] by {
            assert(query::same_letter(direction[k], "desc"@[k]));
        }
        assert(direction =~= "desc"@);
    }
}

/// A backslash that nothing follows stands for itself, and in quotes one takes the quote behind it
/// as it stands.
pub proof fn law_backslash_in_quotes_and_at_end(t: Seq<char>)
    requires
        forall|k: int| 0 <= k < t.len() ==> #[trigger] t[k] != '"' && t[k] != '\\',
        is_unquoted(t),
    ensures
        query::tokens_of(t + "\\"@) == Ok::<Seq<Seq<char>>, Seq<char>>(seq![t + "\\"@]),
        query::tokens_of("\""@ + t + "\\\"\""@) == Ok::<Seq<Seq<char>>, Seq<char>>(
            seq![t + "\""@],
        ),
{
    reveal_strlit("\\");
    reveal_strlit("\"");
    reveal_strlit("\\\"\"");
    let none = Seq::<char>::empty();
    assert(none + t =~= t);
    lemma_tokenizer_goes_on(none, t);
    assert(Seq::<char>::empty() + t =~= t);
    let slash = t + "\\"@;
    assert(slash =~= t.push('\\'));
    assert(slash.drop_last() =~= t);
    assert(query::tokenizer_after(slash).escaped);
    assert(Seq::<Seq<char>>::empty().push(slash) =~= seq![slash]);
    lemma_quoted(t);
    let open = "\""@ + t;
    let one = open.push('\\');
    let two = one.push('"');
    let all = "\""@ + t + "\\\"\""@;
    assert(all =~= two.push('"'));
    assert(one.drop_last() =~= open);
    assert(two.drop_last() =~= one);
    assert(all.drop_last() =~= two);
    assert(all.last() == '"');
    assert(query::tokenizer_after(one).escaped);
    assert(query::tokenizer_after(two).token =~= t + "\""@);
    assert(Seq::<Seq<char>>::empty().push(t + "\""@) =~= seq![t + "\""@]);
}

/// The field of a sort may stand in quotes, which are taken off.
pub proof fn law_quoted_sorts_name_field(field: Seq<char>)
    requires
        field.len() > 0,
        forall|k: int|
            0 <= k < field.len() ==> #[trigger] field[k] != ':' && field[k] != '"' && field[k]
                != '\'' && !text::is_space(field[k]),
    ensures
        query::sort_of("\""@ + field + "\""@) == Ok::<SortModel, Seq<char>>(
            SortModel { field, descending: false },
        ),
{
    reveal_strlit("\"");
    reveal_strlit(":");
    let all = "\""@ + field + "\""@;
    let last = all.len() as int;
    assert(all[0] == '"' && all[last - 1] == '"');
    assert(texts::is_core(all, CharClass::Space, 0, last));
    texts::law_trimming_leaves_core(all, CharClass::Space, 0, last);
    assert(all.subrange(0, last) =~= all);
    texts::law_uncut_holds_none(all, ":"@);
    if exists|k: int| text::occurs_at(all, ":"@, k) {
        let k = choose|k: int| text::occurs_at(all, ":"@, k);
        assert(all.subrange(k, k + 1)[0] == ':');
        assert(all[k] == ':');
        if 0 < k < last - 1 {
            assert(all[k] == field[k - 1]);
        }
    }
    assert(all[1] == field[0]);
    assert(all[last - 2] == field[field.len() - 1]);
    assert(texts::is_core(all, CharClass::Quote, 1, last - 1));
    texts::law_trimming_leaves_core(all, CharClass::Quote, 1, last - 1);
    assert(all.subrange(1, last - 1) =~= field);
    lemma_untrimmed(field);
}

/// The direction of a sort may be written in capitals.
pub proof fn law_directions_ignore_case(field: Seq<char>)
    requires
        field.len() > 0,
        forall|k: int|
            0 <= k < field.len() ==> #[trigger] field[k] != ':' && field[k] != '"' && field[k]
                != '\'' && !text::is_space(field[k]),
    ensures
        query::sort_of(field + ":"@ + "ASC"@) == Ok::<SortModel, Seq<char>>(
            SortModel { field, descending: false },
        ),
        query::sort_of(field + ":"@ + "DESC"@) == Ok::<SortModel, Seq<char>>(
            SortModel { field, descending: true },
        ),
{
    reveal_strlit("ASC");
    reveal_strlit("DESC");
    reveal_strlit("asc");
    reveal_strlit("desc");
    lemma_untrimmed(field);
    lemma_capital_direction(field, "ASC"@);
    lemma_capital_direction(field, "DESC"@);
    assert(query::same_letters("ASC"@, "asc"@));
    assert(query::same_letters("DESC"@, "desc"@));
    assert("ASC"@.len() == 3 && "DESC"@.len() == 4 && "asc"@.len() == 3);
}

proof fn lemma_capital_direction(field: Seq<char>, direction: Seq<char>)
    requires
        field.len() > 0,
        forall|k: int|
            0 <= k < field.len() ==> #[trigger] field[k] != ':' && field[k] != '"' && field[k]
                != '\'' && !text::is_space(field[k]),
        direction.len() > 0,
        forall|k: int| 0 <= k < direction.len() ==> 'A' <= #[trigger] direction[k] <= 'Z',
    ensures
        ({
            let all = field + ":"@ + direction;
            &&& text::trimmed(all) == all
            &&& text::cut_last(all, ":"@) == Some((field, direction))
        }),
{
    reveal_strlit(":");
    let all = field + ":"@ + direction;
    assert forall|k: int| 0 <= k < all.len() implies #[trigger] all[k] != '"' && all[k] != '\''
        && !text::is_space(all[k]) by {
        if k < field.len() {
            assert(all[k] == field[k]);
        } else if k > field.len() {
            assert(all[k] == direction[k - field.len() - 1]);
        }
    }
    lemma_untrimmed(all);
    assert forall|k: int| field.len() < k implies !text::occurs_at(all, ":"@, k) by {
        if text::occurs_at(all, ":"@, k) {
            assert(all.subrange(k, k + 1)[0] == ':');
            assert(all[k] == direction[k - field.len() - 1]);
        }
    }
    texts::law_cut_is_at_last(field, ":"@, direction);
}

} // verus!
