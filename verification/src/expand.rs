//! Expansion of raw prompt input against a command grammar.
//!
//! The input is read word by word, starting at the root of the grammar. At
//! each node the word is held against the node's candidates. A candidate that
//! is the word, exactly or up to case, is taken at once. The only candidate
//! that begins with the word is taken when more input follows the word, and
//! is offered as the completion of the word when none does. A word that no
//! candidate matches is handed on as it stands. In every other case the
//! expansion stops and keeps what was typed.

use crate::action::{built_action, built_by_default};
use crate::command::{entries_view, Command, CommandView, ParamGreed, Parser, ParserView};
use crate::fuzzy::{lemma_ranked_matches_empty, rank_candidates, ranked_matches};
use crate::message::{Message, MessageView};
use crate::search::{
    first_where, is_first_where, is_only_where, lemma_first_where_found,
    lemma_first_where_in_range, lemma_first_where_none, lemma_only_where_found,
    lemma_only_where_none, only_where,
};
use crate::text::{
    char_is_whitespace, chars_of, equal_folded, has_prefix_folded, is_equal_folded,
    is_subsequence, is_whitespace, lemma_prefix_is_subsequence, starts_with_folded,
};
use vstd::prelude::*;

verus! {

/// The number of whitespace characters at the start of `s`.
pub open spec fn blank_len(s: Seq<char>) -> nat
    decreases s.len(),
{
    if s.len() > 0 && is_whitespace(s[0]) {
        1 + blank_len(s.skip(1))
    } else {
        0
    }
}

/// The number of characters at the start of `s` up to the first whitespace.
pub open spec fn word_len(s: Seq<char>) -> nat
    decreases s.len(),
{
    if s.len() > 0 && !is_whitespace(s[0]) {
        1 + word_len(s.skip(1))
    } else {
        0
    }
}

/// `s` without the whitespace at its start.
pub open spec fn trim_start(s: Seq<char>) -> Seq<char> {
    s.skip(blank_len(s) as int)
}

/// The word that a node of the given greed takes from the start of `s`.
pub open spec fn leading_word(s: Seq<char>, greed: ParamGreed) -> Seq<char> {
    match greed {
        ParamGreed::Word => s.take(word_len(s) as int),
        ParamGreed::Rest => s,
    }
}

/// What is done with the word of a node.
pub enum Choice {
    /// Go on to what follows this text.
    Descend(Seq<char>),
    /// Offer this text in place of the word, and stop.
    Complete(Seq<char>),
    /// Keep the word as typed, and stop.
    Stay,
}

/// The test for a candidate that is `word` up to case.
pub open spec fn is_equal_to(word: Seq<char>) -> spec_fn(Seq<char>) -> bool {
    |c: Seq<char>| equal_folded(c, word)
}

/// The test for a candidate that begins with `word`, up to case.
pub open spec fn begins_with(word: Seq<char>) -> spec_fn(Seq<char>) -> bool {
    |c: Seq<char>| starts_with_folded(c, word)
}

/// The test for a table entry under the key `text`.
pub open spec fn has_key(text: Seq<char>) -> spec_fn((Seq<char>, CommandView)) -> bool {
    |e: (Seq<char>, CommandView)| e.0 == text
}

/// The place of the first entry of a table under the key `text`.
pub open spec fn table_index(entries: Seq<(Seq<char>, CommandView)>, text: Seq<char>) -> Option<
    int,
> {
    first_where(entries, has_key(text))
}

/// What is done with `word` at a node with these candidates; `more` says
/// whether input follows the word.
///
/// A candidate that is the word is taken, and so is the first candidate that
/// is the word up to case. Failing that, the only candidate that begins with
/// the word is taken where input follows, and offered as the completion of
/// the word where none does. Failing that, a word that no candidate matches
/// is handed on as it stands, for what follows the node to accept or refuse;
/// a word that some candidates match stays as typed.
pub open spec fn choice(word: Seq<char>, more: bool, candidates: Seq<Seq<char>>) -> Choice {
    if candidates.contains(word) {
        Choice::Descend(word)
    } else if let Some(i) = first_where(candidates, is_equal_to(word)) {
        Choice::Descend(candidates[i])
    } else if let Some(i) = only_where(candidates, begins_with(word)) {
        if more {
            Choice::Descend(candidates[i])
        } else {
            Choice::Complete(candidates[i])
        }
    } else if ranked_matches(word, candidates).len() == 0 {
        Choice::Descend(word)
    } else {
        Choice::Stay
    }
}

/// The text with which the resolution of `input` leaves a node of the given
/// greed and candidates for what follows the node, if it leaves it.
pub open spec fn descent(input: Seq<char>, greed: ParamGreed, candidates: Seq<Seq<char>>) -> Option<
    Seq<char>,
> {
    let rest = trim_start(input);
    let word = leading_word(rest, greed);
    if rest.len() == 0 {
        None
    } else {
        match choice(word, rest.skip(word.len() as int).len() > 0, candidates) {
            Choice::Descend(text) => Some(text),
            _ => None,
        }
    }
}

/// The value of a [`Resolution`](crate::expand::Resolution).
pub struct ResolutionView {
    pub expanded: Seq<char>,
    pub suggestions: Seq<Seq<char>>,
    pub action: Option<MessageView>,
    pub defaulted: bool,
}

/// The resolution of input that has reached the end of a command.
pub open spec fn resolution_at_end(
    after: Seq<char>,
    message: MessageView,
    defaulted: bool,
) -> ResolutionView {
    ResolutionView {
        expanded: Seq::empty(),
        suggestions: Seq::empty(),
        action: if trim_start(after).len() == 0 {
            Some(message)
        } else {
            None
        },
        defaulted,
    }
}

/// `text`, followed by a space where a further word is due, followed by the
/// resolution of the input after the word.
pub open spec fn resolution_after(
    text: Seq<char>,
    next_is_leaf: bool,
    sub: ResolutionView,
) -> ResolutionView {
    ResolutionView {
        expanded: if next_is_leaf {
            text + sub.expanded
        } else {
            text + seq![' '] + sub.expanded
        },
        suggestions: sub.suggestions,
        action: sub.action,
        defaulted: sub.defaulted,
    }
}

/// The resolution of `input` against `command`.
///
/// At a leaf the command is complete: nothing is expanded or suggested, and
/// the action of the leaf is given unless input is left over. At a node
/// with no input left, the candidates of the node are suggested as they
/// stand. Otherwise the node takes its word from the input and suggests the
/// candidates that match the word, best first. Where the word is taken for
/// a text that leads on, the expansion is that text, a space where a further
/// word is due, and the expansion of the input after the word; the
/// suggestions and the action are those of the input after the word. Where
/// the word is completed, the expansion is the completion. In every other
/// case the expansion is the input as typed from the word on.
pub open spec fn resolution(input: Seq<char>, command: CommandView) -> ResolutionView
    decreases command,
    via resolution_decreases
{
    let rest = trim_start(input);
    match command {
        CommandView::Terminal(message) => resolution_at_end(input, message, false),
        CommandView::NonTerminal(greed, candidates, parser) => {
            if rest.len() == 0 {
                ResolutionView {
                    expanded: Seq::empty(),
                    suggestions: candidates,
                    action: None,
                    defaulted: false,
                }
            } else {
                let word = leading_word(rest, greed);
                let after = rest.skip(word.len() as int);
                let ranked = ranked_matches(word, candidates);
                let stay = ResolutionView {
                    expanded: rest,
                    suggestions: ranked,
                    action: None,
                    defaulted: false,
                };
                match choice(word, after.len() > 0, candidates) {
                    Choice::Stay => stay,
                    Choice::Complete(text) => ResolutionView {
                        expanded: text,
                        suggestions: ranked,
                        action: None,
                        defaulted: false,
                    },
                    Choice::Descend(text) => match parser {
                        ParserView::Build(builder) => match built_action(builder, text) {
                            Some(message) => resolution_after(
                                text,
                                true,
                                resolution_at_end(
                                    after,
                                    message,
                                    built_by_default(builder, text),
                                ),
                            ),
                            None => stay,
                        },
                        ParserView::Table(entries) => match table_index(entries, text) {
                            Some(i) => resolution_after(
                                text,
                                entries[i].1 is Terminal,
                                resolution(after, entries[i].1),
                            ),
                            None => stay,
                        },
                    },
                }
            }
        },
    }
}

#[via_fn]
proof fn resolution_decreases(input: Seq<char>, command: CommandView) {
    if let CommandView::NonTerminal(_, _, ParserView::Table(entries)) = command {
        assert forall|text: Seq<char>| (#[trigger] table_index(entries, text)) is Some implies 0
            <= table_index(entries, text)->0 < entries.len() by {
            lemma_first_where_in_range(entries, has_key(text));
        }
    }
}

/// What the prompt shows for its input: the input as far as it could be
/// expanded, and the candidates for the word that is being typed.
#[derive(Clone, Debug, PartialEq, Eq)]
pub struct FuzzyOutput {
    /// The input as far as it could be expanded.
    pub expanded: String,
    /// The candidates for the word that is being typed, best first.
    pub suggestions: Vec<String>,
}

/// The value of a [`FuzzyOutput`].
pub struct FuzzyOutputView {
    pub expanded: Seq<char>,
    pub suggestions: Seq<Seq<char>>,
}

impl View for FuzzyOutput {
    type V = FuzzyOutputView;

    open spec fn view(&self) -> FuzzyOutputView {
        FuzzyOutputView { expanded: self.expanded@, suggestions: self.suggestions.deep_view() }
    }
}

/// The outcome of holding input against a grammar.
#[derive(Clone, Debug, PartialEq, Eq)]
pub struct Resolution {
    /// The input as far as it could be expanded.
    pub expanded: String,
    /// The candidates for the word that is being typed, best first.
    pub suggestions: Vec<String>,
    /// The action that the input stands for, where it is a complete command.
    pub action: Option<Message>,
    /// Whether the action holds the default of a closed choice because the
    /// word for it named none of the choices.
    pub defaulted: bool,
}

impl View for Resolution {
    type V = ResolutionView;

    open spec fn view(&self) -> ResolutionView {
        ResolutionView {
            expanded: self.expanded@,
            suggestions: self.suggestions.deep_view(),
            action: match self.action {
                Some(message) => Some(message@),
                None => None,
            },
            defaulted: self.defaulted,
        }
    }
}

/// What is done with the word of a node.
enum Pick {
    Descend(String),
    Complete(String),
    Stay,
}

/// The value of a [`Pick`].
spec fn choice_of(picked: Pick) -> Choice {
    match picked {
        Pick::Descend(text) => Choice::Descend(text@),
        Pick::Complete(text) => Choice::Complete(text@),
        Pick::Stay => Choice::Stay,
    }
}

/// The place where the whitespace that begins at `start` ends.
fn skip_blank(chars: &Vec<char>, start: usize) -> (end: usize)
    requires
        start <= chars.len(),
    ensures
        start <= end <= chars.len(),
        end - start == blank_len(chars@.skip(start as int)),
{
    let mut i: usize = start;
    while i < chars.len() && char_is_whitespace(chars[i])
        invariant
            start <= i <= chars.len(),
            blank_len(chars@.skip(start as int)) == (i - start) + blank_len(chars@.skip(i as int)),
        decreases chars.len() - i,
    {
        proof {
            assert(chars@.skip(i as int).skip(1) =~= chars@.skip(i + 1));
        }
        i = i + 1;
    }
    i
}

/// The place where the word that begins at `start` ends.
fn skip_word(chars: &Vec<char>, start: usize) -> (end: usize)
    requires
        start <= chars.len(),
    ensures
        start <= end <= chars.len(),
        end - start == word_len(chars@.skip(start as int)),
{
    let mut i: usize = start;
    while i < chars.len() && !char_is_whitespace(chars[i])
        invariant
            start <= i <= chars.len(),
            word_len(chars@.skip(start as int)) == (i - start) + word_len(chars@.skip(i as int)),
        decreases chars.len() - i,
    {
        proof {
            assert(chars@.skip(i as int).skip(1) =~= chars@.skip(i + 1));
        }
        i = i + 1;
    }
    i
}

/// The place of a candidate that is `word`.
fn find_exact(candidates: &Vec<String>, word: &String) -> (found: Option<usize>)
    ensures
        match found {
            Some(i) => i < candidates.len() && candidates@[i as int]@ == word@
                && candidates.deep_view().contains(word@),
            None => !candidates.deep_view().contains(word@),
        },
{
    let mut i: usize = 0;
    while i < candidates.len()
        invariant
            i <= candidates.len(),
            forall|j: int| 0 <= j < i ==> (#[trigger] candidates.deep_view()[j]) != word@,
        decreases candidates.len() - i,
    {
        assert(candidates.deep_view()[i as int] == candidates@[i as int]@);
        if candidates[i] == *word {
            return Some(i);
        }
        i = i + 1;
    }
    None
}

/// The place of the first candidate that is `word` up to case.
fn find_equal_folded(candidates: &Vec<String>, word: &Vec<char>) -> (found: Option<usize>)
    ensures
        match found {
            Some(i) => first_where(candidates.deep_view(), is_equal_to(word@)) == Some(i as int),
            None => first_where(candidates.deep_view(), is_equal_to(word@)) is None,
        },
{
    let mut i: usize = 0;
    while i < candidates.len()
        invariant
            i <= candidates.len(),
            forall|j: int|
                0 <= j < i ==> !is_equal_to(word@)(#[trigger] candidates.deep_view()[j]),
        decreases candidates.len() - i,
    {
        let chars: Vec<char> = chars_of(candidates[i].as_str());
        assert(candidates.deep_view()[i as int] == chars@);
        if is_equal_folded(&chars, word) {
            proof {
                lemma_first_where_found(candidates.deep_view(), is_equal_to(word@), i as int);
            }
            return Some(i);
        }
        i = i + 1;
    }
    proof {
        lemma_first_where_none(candidates.deep_view(), is_equal_to(word@));
    }
    None
}

/// The place of the only candidate that begins with `word`, up to case.
fn find_only_prefixed(candidates: &Vec<String>, word: &Vec<char>) -> (found: Option<usize>)
    ensures
        match found {
            Some(i) => only_where(candidates.deep_view(), begins_with(word@)) == Some(i as int),
            None => only_where(candidates.deep_view(), begins_with(word@)) is None,
        },
{
    let mut first: Option<usize> = None;
    let mut i: usize = 0;
    while i < candidates.len()
        invariant
            i <= candidates.len(),
            match first {
                Some(f) => f < i && begins_with(word@)(candidates.deep_view()[f as int]),
                None => true,
            },
            forall|j: int|
                0 <= j < i && first != Some(j as usize) ==> !begins_with(word@)(
                    #[trigger] candidates.deep_view()[j],
                ),
        decreases candidates.len() - i,
    {
        let chars: Vec<char> = chars_of(candidates[i].as_str());
        assert(candidates.deep_view()[i as int] == chars@);
        if has_prefix_folded(&chars, word) {
            match first {
                Some(f) => {
                    proof {
                        let s = candidates.deep_view();
                        let p = begins_with(word@);
                        assert(0 <= f < i < s.len() && p(s[f as int]) && p(s[i as int]));
                        lemma_only_where_none(s, p);
                    }
                    return None;
                },
                None => {
                    first = Some(i);
                },
            }
        }
        i = i + 1;
    }
    proof {
        match first {
            Some(f) => {
                lemma_only_where_found(candidates.deep_view(), begins_with(word@), f as int);
            },
            None => {
                lemma_only_where_none(candidates.deep_view(), begins_with(word@));
            },
        }
    }
    first
}

/// Decides what is done with `word` at a node with these candidates.
fn pick(
    word: String,
    word_chars: &Vec<char>,
    more: bool,
    candidates: &Vec<String>,
    ranked_len: usize,
) -> (picked: Pick)
    requires
        word@ == word_chars@,
        ranked_len == ranked_matches(word@, candidates.deep_view()).len(),
    ensures
        choice_of(picked) == choice(word@, more, candidates.deep_view()),
{
    if find_exact(candidates, &word).is_some() {
        return Pick::Descend(word);
    }
    if let Some(i) = find_equal_folded(candidates, word_chars) {
        proof {
            lemma_first_where_in_range(candidates.deep_view(), is_equal_to(word@));
        }
        return Pick::Descend(candidates[i].clone());
    }
    if let Some(i) = find_only_prefixed(candidates, word_chars) {
        proof {
            let s = candidates.deep_view();
            let p = begins_with(word@);
            assert(is_only_where(s, p, i as int));
        }
        return if more {
            Pick::Descend(candidates[i].clone())
        } else {
            Pick::Complete(candidates[i].clone())
        };
    }
    if ranked_len == 0 {
        Pick::Descend(word)
    } else {
        Pick::Stay
    }
}

/// The text with which the resolution of `input` leaves a node of the given
/// greed and candidates, if it leaves it: the word as typed, or the
/// candidate that it was taken for.
pub fn descent_text(input: &str, greed: ParamGreed, candidates: &Vec<String>) -> (text: Option<
    String,
>)
    ensures
        match text {
            Some(text) => descent(input@, greed, candidates.deep_view()) == Some(text@),
            None => descent(input@, greed, candidates.deep_view()) is None,
        },
{
    let chars: Vec<char> = chars_of(input);
    let n: usize = chars.len();
    assert(chars@.skip(0) =~= chars@);
    let begin: usize = skip_blank(&chars, 0);
    if begin == n {
        return None;
    }
    let end: usize = match greed {
        ParamGreed::Word => skip_word(&chars, begin),
        ParamGreed::Rest => n,
    };
    let ghost rest = trim_start(input@);
    assert(rest =~= chars@.skip(begin as int));
    assert(leading_word(rest, greed) =~= chars@.subrange(begin as int, end as int));
    let word_str: &str = input.substring_char(begin, end);
    let word_chars: Vec<char> = chars_of(word_str);
    let ranked: Vec<String> = rank_candidates(&word_chars, candidates);
    match pick(word_str.to_owned(), &word_chars, end < n, candidates, ranked.len()) {
        Pick::Descend(text) => Some(text),
        Pick::Complete(_) => None,
        Pick::Stay => None,
    }
}

/// The place of the first entry of a table under the key `text`.
fn find_key(entries: &Vec<(String, Command)>, text: &String) -> (found: Option<usize>)
    ensures
        match found {
            Some(i) => i < entries.len() && table_index(entries_view(entries@), text@) == Some(
                i as int,
            ),
            None => table_index(entries_view(entries@), text@) is None,
        },
{
    let mut i: usize = 0;
    while i < entries.len()
        invariant
            i <= entries.len(),
            forall|j: int| 0 <= j < i ==> !has_key(text@)(#[trigger] entries_view(entries@)[j]),
        decreases entries.len() - i,
    {
        if entries[i].0 == *text {
            proof {
                lemma_first_where_found(entries_view(entries@), has_key(text@), i as int);
            }
            return Some(i);
        }
        i = i + 1;
    }
    proof {
        lemma_first_where_none(entries_view(entries@), has_key(text@));
    }
    None
}

/// Resolves the input from `start` on against `command`.
fn resolve_from(input: &str, chars: &Vec<char>, start: usize, command: Command) -> (res:
    Resolution)
    requires
        chars@ == input@,
        start <= chars.len(),
        command@.well_formed(),
    ensures
        res@ == resolution(chars@.skip(start as int), command@),
    decreases command,
{
    let n: usize = chars.len();
    let begin: usize = skip_blank(chars, start);
    let ghost from_start = chars@.skip(start as int);
    let ghost rest = trim_start(from_start);
    assert(rest =~= chars@.skip(begin as int));
    match command {
        Command::Terminal(message) => {
            let action: Option<Message> = if begin == n {
                Some(message)
            } else {
                None
            };
            let res = Resolution {
                expanded: String::new(),
                suggestions: Vec::new(),
                action,
                defaulted: false,
            };
            assert(res@.suggestions =~= Seq::<Seq<char>>::empty());
            res
        },
        Command::NonTerminal(greed, candidates, parser) => {
            if begin == n {
                return Resolution {
                    expanded: String::new(),
                    suggestions: candidates,
                    action: None,
                    defaulted: false,
                };
            }
            let end: usize = match greed {
                ParamGreed::Word => skip_word(chars, begin),
                ParamGreed::Rest => n,
            };
            let ghost word = leading_word(rest, greed);
            let ghost after = rest.skip(word.len() as int);
            assert(word =~= chars@.subrange(begin as int, end as int));
            assert(after =~= chars@.skip(end as int));
            let word_str: &str = input.substring_char(begin, end);
            let word_chars: Vec<char> = chars_of(word_str);
            let ranked: Vec<String> = rank_candidates(&word_chars, &candidates);
            let picked: Pick = pick(
                word_str.to_owned(),
                &word_chars,
                end < n,
                &candidates,
                ranked.len(),
            );
            let text: String = match picked {
                Pick::Stay => {
                    return Resolution {
                        expanded: input.substring_char(begin, n).to_owned(),
                        suggestions: ranked,
                        action: None,
                        defaulted: false,
                    };
                },
                Pick::Complete(text) => {
                    return Resolution {
                        expanded: text,
                        suggestions: ranked,
                        action: None,
                        defaulted: false,
                    };
                },
                Pick::Descend(text) => text,
            };
            match parser {
                Parser::Build(builder) => {
                    match builder.build(text.clone()) {
                        Some((message, defaulted)) => {
                            let after_blank: usize = skip_blank(chars, end);
                            let action: Option<Message> = if after_blank == n {
                                Some(message)
                            } else {
                                None
                            };
                            let res = Resolution {
                                expanded: text,
                                suggestions: Vec::new(),
                                action,
                                defaulted,
                            };
                            assert(res@.suggestions =~= Seq::<Seq<char>>::empty());
                            assert(res@.expanded =~= text@ + Seq::<char>::empty());
                            res
                        },
                        None => Resolution {
                            expanded: input.substring_char(begin, n).to_owned(),
                            suggestions: ranked,
                            action: None,
                            defaulted: false,
                        },
                    }
                },
                Parser::Table(entries) => {
                    let mut entries: Vec<(String, Command)> = entries;
                    match find_key(&entries, &text) {
                        Some(i) => {
                            let ghost views = entries_view(entries@);
                            let entry: (String, Command) = entries.swap_remove(i);
                            let next: Command = entry.1;
                            assert(next@ == views[i as int].1);
                            let leaf: bool = match &next {
                                Command::Terminal(_) => true,
                                Command::NonTerminal(_, _, _) => false,
                            };
                            let sub: Resolution = resolve_from(input, chars, end, next);
                            let mut expanded: String = text;
                            if !leaf {
                                proof {
                                    reveal_strlit(" ");
                                }
                                expanded.append(" ");
                                assert(expanded@ =~= text@ + seq![' ']);
                            }
                            expanded.append(sub.expanded.as_str());
                            Resolution {
                                expanded,
                                suggestions: sub.suggestions,
                                action: sub.action,
                                defaulted: sub.defaulted,
                            }
                        },
                        None => Resolution {
                            expanded: input.substring_char(begin, n).to_owned(),
                            suggestions: ranked,
                            action: None,
                            defaulted: false,
                        },
                    }
                },
            }
        },
    }
}

/// Holds `input` against the grammar under `command`: expands what was
/// typed, ranks the candidates for the word being typed, and gives the
/// action where the input is a complete command.
pub fn resolve(input: &str, command: Command) -> (res: Resolution)
    requires
        command@.well_formed(),
    ensures
        res@ == resolution(input@, command@),
{
    let chars: Vec<char> = chars_of(input);
    assert(chars@.skip(0) =~= input@);
    resolve_from(input, &chars, 0, command)
}

/// The expansion of `query` against the grammar under `command`, and the
/// candidates for the word being typed.
pub fn expand_command(query: &str, command: Command) -> (output: FuzzyOutput)
    requires
        command@.well_formed(),
    ensures
        output@.expanded == resolution(query@, command@).expanded,
        output@.suggestions == resolution(query@, command@).suggestions,
{
    let res: Resolution = resolve(query, command);
    FuzzyOutput { expanded: res.expanded, suggestions: res.suggestions }
}

/// The action that `query` stands for, where it is a complete command of
/// the grammar under `command`.
pub fn parse_command(query: &str, command: Command) -> (action: Option<Message>)
    requires
        command@.well_formed(),
    ensures
        match action {
            Some(message) => resolution(query@, command@).action == Some(message@),
            None => resolution(query@, command@).action is None,
        },
{
    resolve(query, command).action
}


/// The whitespace at the start of `s` ends at its first character that is
/// no whitespace.
pub proof fn lemma_blank_len_is_first_word_character(s: Seq<char>)
    ensures
        blank_len(s) <= s.len(),
        forall|i: int| 0 <= i < blank_len(s) ==> is_whitespace(#[trigger] s[i]),
        blank_len(s) < s.len() ==> !is_whitespace(s[blank_len(s) as int]),
    decreases s.len(),
{
    if s.len() > 0 && is_whitespace(s[0]) {
        let tail = s.skip(1);
        lemma_blank_len_is_first_word_character(tail);
        assert forall|i: int| 0 <= i < blank_len(s) implies is_whitespace(#[trigger] s[i]) by {
            if i > 0 {
                assert(s[i] == tail[i - 1]);
            }
        }
        if blank_len(s) < s.len() {
            assert(s[blank_len(s) as int] == tail[blank_len(tail) as int]);
        }
    }
}

/// The word at the start of `s` ends at its first whitespace.
pub proof fn lemma_word_len_is_first_whitespace(s: Seq<char>)
    ensures
        word_len(s) <= s.len(),
        forall|i: int| 0 <= i < word_len(s) ==> !is_whitespace(#[trigger] s[i]),
        word_len(s) < s.len() ==> is_whitespace(s[word_len(s) as int]),
    decreases s.len(),
{
    if s.len() > 0 && !is_whitespace(s[0]) {
        let tail = s.skip(1);
        lemma_word_len_is_first_whitespace(tail);
        assert forall|i: int| 0 <= i < word_len(s) implies !is_whitespace(#[trigger] s[i]) by {
            if i > 0 {
                assert(s[i] == tail[i - 1]);
            }
        }
        if word_len(s) < s.len() {
            assert(s[word_len(s) as int] == tail[word_len(tail) as int]);
        }
    }
}

/// A sequence without whitespace is one word.
pub proof fn lemma_word_len_without_whitespace(s: Seq<char>)
    requires
        forall|i: int| 0 <= i < s.len() ==> !is_whitespace(#[trigger] s[i]),
    ensures
        word_len(s) == s.len(),
        s.len() > 0 ==> blank_len(s) == 0,
    decreases s.len(),
{
    if s.len() > 0 {
        assert forall|i: int| 0 <= i < s.skip(1).len() implies !is_whitespace(
            #[trigger] s.skip(1)[i],
        ) by {
            assert(s.skip(1)[i] == s[i + 1]);
        }
        lemma_word_len_without_whitespace(s.skip(1));
    }
}

/// What two calls of [`resolve`] on the same input and the same grammar
/// return has the same value.
pub proof fn lemma_resolve_deterministic(
    first: Resolution,
    second: Resolution,
    input: Seq<char>,
    command: CommandView,
)
    requires
        first@ == resolution(input, command),
        second@ == resolution(input, command),
    ensures
        first@ == second@,
{
}

/// Input that is empty, or holds whitespace only, expands to nothing, and
/// the candidates of the root are offered as they stand.
pub proof fn lemma_blank_input(
    input: Seq<char>,
    greed: ParamGreed,
    candidates: Seq<Seq<char>>,
    parser: ParserView,
)
    requires
        forall|i: int| 0 <= i < input.len() ==> is_whitespace(#[trigger] input[i]),
    ensures
        resolution(input, CommandView::NonTerminal(greed, candidates, parser)) == (ResolutionView {
            expanded: Seq::empty(),
            suggestions: candidates,
            action: None,
            defaulted: false,
        }),
{
    lemma_blank_len_of_blank(input);
}

/// A sequence of whitespace is all leading whitespace.
proof fn lemma_blank_len_of_blank(s: Seq<char>)
    requires
        forall|i: int| 0 <= i < s.len() ==> is_whitespace(#[trigger] s[i]),
    ensures
        blank_len(s) == s.len(),
    decreases s.len(),
{
    if s.len() > 0 {
        assert forall|i: int| 0 <= i < s.skip(1).len() implies is_whitespace(
            #[trigger] s.skip(1)[i],
        ) by {
            assert(s.skip(1)[i] == s[i + 1]);
        }
        lemma_blank_len_of_blank(s.skip(1));
    }
}

/// An action is given for a complete command only: where the resolution
/// gives an action, it suggests nothing.
pub proof fn lemma_action_ends_suggestions(input: Seq<char>, command: CommandView)
    ensures
        resolution(input, command).action is Some ==> resolution(input, command).suggestions.len()
            == 0,
    decreases command,
{
    if let CommandView::NonTerminal(greed, candidates, ParserView::Table(entries)) = command {
        let rest = trim_start(input);
        let word = leading_word(rest, greed);
        let after = rest.skip(word.len() as int);
        if rest.len() > 0 {
            if let Choice::Descend(text) = choice(word, after.len() > 0, candidates) {
                if let Some(i) = table_index(entries, text) {
                    lemma_first_where_in_range(entries, has_key(text));
                    lemma_action_ends_suggestions(after, entries[i].1);
                }
            }
        }
    }
}

/// The only candidate that begins with the word completes it: where no
/// input follows the word, and the candidate is not the word itself up to
/// case, the expansion is the candidate, the candidates that match the word
/// are suggested, and the resolution stays at the node.
pub proof fn lemma_unique_prefix_completes(
    input: Seq<char>,
    greed: ParamGreed,
    candidates: Seq<Seq<char>>,
    parser: ParserView,
    i: int,
)
    requires
        trim_start(input).len() > 0,
        trim_start(input).skip(leading_word(trim_start(input), greed).len() as int).len() == 0,
        is_only_where(candidates, begins_with(leading_word(trim_start(input), greed)), i),
        !equal_folded(candidates[i], leading_word(trim_start(input), greed)),
    ensures
        resolution(input, CommandView::NonTerminal(greed, candidates, parser)) == (ResolutionView {
            expanded: candidates[i],
            suggestions: ranked_matches(leading_word(trim_start(input), greed), candidates),
            action: None,
            defaulted: false,
        }),
{
    let word = leading_word(trim_start(input), greed);
    assert(!candidates.contains(word)) by {
        if candidates.contains(word) {
            let j = choose|j: int| 0 <= j < candidates.len() && candidates[j] == word;
            assert(begins_with(word)(candidates[j]));
        }
    }
    assert(first_where(candidates, is_equal_to(word)) is None) by {
        assert forall|j: int| 0 <= j < candidates.len() implies !is_equal_to(word)(
            #[trigger] candidates[j],
        ) by {
            if is_equal_to(word)(candidates[j]) {
                assert(begins_with(word)(candidates[j]));
            }
        }
        lemma_first_where_none(candidates, is_equal_to(word));
    }
    lemma_only_where_found(candidates, begins_with(word), i);
}

/// A word that no candidate matches, and that what follows the node
/// refuses, stops the resolution: the input is kept as typed from the word
/// on, nothing is suggested, and no action is given.
pub proof fn lemma_unmatched_word_stops(
    input: Seq<char>,
    greed: ParamGreed,
    candidates: Seq<Seq<char>>,
    parser: ParserView,
)
    requires
        trim_start(input).len() > 0,
        forall|i: int|
            0 <= i < candidates.len() ==> !is_subsequence(
                leading_word(trim_start(input), greed),
                #[trigger] candidates[i],
            ),
        match parser {
            ParserView::Table(entries) => table_index(
                entries,
                leading_word(trim_start(input), greed),
            ) is None,
            ParserView::Build(builder) => built_action(
                builder,
                leading_word(trim_start(input), greed),
            ) is None,
        },
    ensures
        resolution(input, CommandView::NonTerminal(greed, candidates, parser)) == (ResolutionView {
            expanded: trim_start(input),
            suggestions: Seq::empty(),
            action: None,
            defaulted: false,
        }),
{
    let word = leading_word(trim_start(input), greed);
    lemma_ranked_matches_empty(word, candidates);
    assert(ranked_matches(word, candidates) =~= Seq::<Seq<char>>::empty());
    assert forall|j: int| 0 <= j < candidates.len() implies !begins_with(word)(
        #[trigger] candidates[j],
    ) by {
        if begins_with(word)(candidates[j]) {
            lemma_prefix_is_subsequence(candidates[j], word);
        }
    }
    assert(!candidates.contains(word)) by {
        if candidates.contains(word) {
            let j = choose|j: int| 0 <= j < candidates.len() && candidates[j] == word;
            assert(begins_with(word)(candidates[j]));
        }
    }
    assert forall|j: int| 0 <= j < candidates.len() implies !is_equal_to(word)(
        #[trigger] candidates[j],
    ) by {
        if is_equal_to(word)(candidates[j]) {
            assert(begins_with(word)(candidates[j]));
        }
    }
    lemma_first_where_none(candidates, is_equal_to(word));
    lemma_only_where_none(candidates, begins_with(word));
}

/// A word that is a candidate of its node is taken at once: the resolution
/// goes on to what the table holds for the word, whatever follows it.
pub proof fn lemma_candidate_word_descends(
    input: Seq<char>,
    greed: ParamGreed,
    candidates: Seq<Seq<char>>,
    entries: Seq<(Seq<char>, CommandView)>,
    i: int,
)
    requires
        trim_start(input).len() > 0,
        candidates.contains(leading_word(trim_start(input), greed)),
        table_index(entries, leading_word(trim_start(input), greed)) == Some(i),
    ensures
        0 <= i < entries.len(),
        resolution(
            input,
            CommandView::NonTerminal(greed, candidates, ParserView::Table(entries)),
        ) == resolution_after(
            leading_word(trim_start(input), greed),
            entries[i].1 is Terminal,
            resolution(
                trim_start(input).skip(leading_word(trim_start(input), greed).len() as int),
                entries[i].1,
            ),
        ),
{
    lemma_first_where_in_range(entries, has_key(leading_word(trim_start(input), greed)));
}

/// A grammar of one word that leads to one action: the word alone resolves
/// to itself, to no suggestions, and to the action.
pub proof fn lemma_single_word_command(word: Seq<char>, message: MessageView)
    requires
        word.len() > 0,
        forall|i: int| 0 <= i < word.len() ==> !is_whitespace(#[trigger] word[i]),
    ensures
        resolution(
            word,
            CommandView::NonTerminal(
                ParamGreed::Word,
                seq![word],
                ParserView::Table(seq![(word, CommandView::Terminal(message))]),
            ),
        ) == (ResolutionView {
            expanded: word,
            suggestions: Seq::empty(),
            action: Some(message),
            defaulted: false,
        }),
{
    let candidates = seq![word];
    let entries = seq![(word, CommandView::Terminal(message))];
    lemma_word_len_without_whitespace(word);
    assert(trim_start(word) =~= word);
    assert(leading_word(word, ParamGreed::Word) =~= word);
    assert(candidates[0] == word);
    assert(is_first_where(entries, has_key(word), 0));
    lemma_first_where_found(entries, has_key(word), 0);
    lemma_candidate_word_descends(word, ParamGreed::Word, candidates, entries, 0);
    let after = word.skip(word.len() as int);
    assert(after =~= Seq::<char>::empty());
    assert(trim_start(after) =~= Seq::<char>::empty());
    assert(word + Seq::<char>::empty() =~= word);
}

} // verus!
