//! The two billing classes, and the labels that name them.

use vstd::prelude::*;
use crate::text::{
    chars_of,
    is_space,
    lemma_lowered_trimmed_ignores_case,
    lemma_trimmed_between,
    lemma_trimmed_ignores_padding,
    lower,
    lowered,
    spells,
    to_lower,
    trim,
    trimmed,
};

verus! {

/// How an item is billed.
#[derive(Clone, Copy, Debug, PartialEq, Eq, Structural)]
pub enum Category {
    /// The full amount is due every period; there is no deposit.
    Subscription,
    /// A single purchase, of which a deposit is due at once.
    OneShot,
}

/// A label that names neither class.
#[derive(Clone, Debug, PartialEq, Eq)]
pub struct UnknownCategory {
    /// The label as it was given.
    pub label: String,
}

/// The form in which labels are compared: without the white space around
/// them, and with ASCII letters in lower case.
pub open spec fn normalized(label: Seq<char>) -> Seq<char> {
    lowered(trimmed(label))
}

/// The normalized labels of the subscription class.
pub open spec fn names_subscription(word: Seq<char>) -> bool {
    ||| word == "subscription"@
    ||| word == "sub"@
    ||| word == "monthly"@
}

/// The normalized labels of the one-shot class.
pub open spec fn names_one_shot(word: Seq<char>) -> bool {
    ||| word == "one_shot"@
    ||| word == "one-shot"@
    ||| word == "one time"@
    ||| word == "one-time"@
    ||| word == "oneoff"@
    ||| word == "one_off"@
    ||| word == "oneoffpackage"@
    ||| word == "one-shot package"@
    ||| word == "ad-hoc"@
    ||| word == "adhoc"@
    ||| word == "one-shot services"@
}

/// The class that `label` names, if it names one.
pub open spec fn category_of(label: Seq<char>) -> Option<Category> {
    let word = normalized(label);
    if names_subscription(word) {
        Some(Category::Subscription)
    } else if names_one_shot(word) {
        Some(Category::OneShot)
    } else {
        None
    }
}

/// A word that neither starts nor ends with white space and holds no
/// upper-case ASCII letter is its own normalized form.
proof fn lemma_plain_word(word: Seq<char>)
    requires
        word.len() > 0,
        !is_space(word[0]),
        !is_space(word.last()),
        forall|i: int| 0 <= i < word.len() ==> lower(#[trigger] word[i]) == word[i],
    ensures
        normalized(word) == word,
{
    lemma_trimmed_between(word, 0, word.len() as int);
    assert(word.subrange(0, word.len() as int) =~= word);
    assert(lowered(word) =~= word);
}

/// Each name of a class, written as it is listed, is classified as that
/// class.
pub proof fn law_names_are_classified(word: Seq<char>)
    ensures
        names_subscription(word) ==> category_of(word) == Some(Category::Subscription),
        names_one_shot(word) ==> category_of(word) == Some(Category::OneShot),
{
    reveal_strlit("subscription");
    reveal_strlit("sub");
    reveal_strlit("monthly");
    reveal_strlit("one_shot");
    reveal_strlit("one-shot");
    reveal_strlit("one time");
    reveal_strlit("one-time");
    reveal_strlit("oneoff");
    reveal_strlit("one_off");
    reveal_strlit("oneoffpackage");
    reveal_strlit("one-shot package");
    reveal_strlit("ad-hoc");
    reveal_strlit("adhoc");
    reveal_strlit("one-shot services");
    if names_subscription(word) || names_one_shot(word) {
        lemma_plain_word(word);
    }
}

/// White space before and after a label does not change its class.
pub proof fn law_padding_is_ignored(before: Seq<char>, label: Seq<char>, after: Seq<char>)
    requires
        forall|i: int| 0 <= i < before.len() ==> is_space(#[trigger] before[i]),
        forall|i: int| 0 <= i < after.len() ==> is_space(#[trigger] after[i]),
    ensures
        category_of(before + label + after) == category_of(label),
{
    lemma_trimmed_ignores_padding(before, label, after);
}

/// The case of the ASCII letters of a label does not change its class.
pub proof fn law_case_is_ignored(a: Seq<char>, b: Seq<char>)
    requires
        a.len() == b.len(),
        forall|i: int| 0 <= i < a.len() ==> lower(#[trigger] a[i]) == lower(b[i]),
    ensures
        category_of(a) == category_of(b),
{
    lemma_lowered_trimmed_ignores_case(a, b);
}

/// Classifies the characters of a label.
pub fn classify_chars(label: &[char]) -> (out: Option<Category>)
    ensures
        out == category_of(label@),
{
    let folded = to_lower(trim(label));
    let word = folded.as_slice();
    if spells(word, "subscription") || spells(word, "sub") || spells(word, "monthly") {
        Some(Category::Subscription)
    } else if spells(word, "one_shot") || spells(word, "one-shot") || spells(word, "one time")
        || spells(word, "one-time") || spells(word, "oneoff") || spells(word, "one_off") || spells(
        word,
        "oneoffpackage",
    ) || spells(word, "one-shot package") || spells(word, "ad-hoc") || spells(word, "adhoc")
        || spells(word, "one-shot services") {
        Some(Category::OneShot)
    } else {
        None
    }
}

/// The class that `label` names. A label that names none comes back in the
/// error, as it was given.
pub fn classify(label: &str) -> (out: Result<Category, UnknownCategory>)
    ensures
        match category_of(label@) {
            Some(category) => out == Ok::<Category, UnknownCategory>(category),
            None => out matches Err(e) && e.label@ == label@,
        },
{
    let chars = chars_of(label);
    match classify_chars(chars.as_slice()) {
        Some(category) => Ok(category),
        None => Err(UnknownCategory { label: label.to_owned() }),
    }
}

} // verus!
