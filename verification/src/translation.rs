//! The decisions of the translation stage: which text bubbles are sent for
//! translation and what is written back for each.

use vstd::prelude::*;
use vstd::string::*;
use crate::text::{trim, trim_white_space};

verus! {

/// A bubble is translated only when its source text is not blank.
pub open spec fn is_target(source: Seq<char>) -> bool {
    trim(source).len() > 0
}

pub fn is_translation_target(source: &str) -> (r: bool)
    ensures
        r == is_target(source@),
{
    trim_white_space(source).unicode_len() > 0
}

/// The provider credited for a page: that of the first request that
/// succeeded, or the configured model's name when none did.
pub open spec fn credited_provider(providers: Seq<Option<String>>, model: String) -> String
    decreases providers.len(),
{
    if providers.len() == 0 {
        model
    } else {
        match providers[0] {
            Some(p) => p,
            None => credited_provider(providers.drop_first(), model),
        }
    }
}

/// `providers[i]` is the provider that answered request `i`, or `None` where
/// the request failed.
pub fn provider_for(providers: &Vec<Option<String>>, model: &String) -> (r: String)
    ensures
        r == credited_provider(providers@, *model),
{
    let n = providers.len();
    let mut i: usize = 0;
    assert(providers@.skip(0) =~= providers@);
    while i < n
        invariant
            n == providers@.len(),
            i <= n,
            credited_provider(providers@, *model) == credited_provider(
                providers@.skip(i as int),
                *model,
            ),
        decreases n - i,
    {
        match &providers[i] {
            Some(p) => {
                return p.clone();
            },
            None => {},
        }
        assert(providers@.skip(i as int).drop_first() =~= providers@.skip(i + 1));
        i = i + 1;
    }
    model.clone()
}

/// A lone ellipsis (`…`) once trimmed.
pub open spec fn is_ellipsis(source: Seq<char>) -> bool {
    trim(source) == seq!['\u{2026}']
}

/// What is written for a bubble: a lone ellipsis stays as it is; otherwise
/// the first translated text, or nothing when there is none.
pub open spec fn written_text(source: Seq<char>, translated: Seq<String>) -> Seq<char> {
    if is_ellipsis(source) {
        seq!['\u{2026}']
    } else if translated.len() > 0 {
        translated[0]@
    } else {
        Seq::empty()
    }
}

/// Only a source that trims to the single character `…` keeps `…`; any
/// other source (one that merely ends in `…` among them) gets the first
/// answer, or nothing when there is no answer.
pub proof fn lemma_only_a_lone_ellipsis_is_kept(source: Seq<char>, translated: Seq<String>)
    ensures
        trim(source) == seq!['\u{2026}'] ==> written_text(source, translated) == seq!['\u{2026}'],
        trim(source) != seq!['\u{2026}'] && translated.len() > 0 ==> written_text(source, translated)
            == translated[0]@,
        trim(source) != seq!['\u{2026}'] && translated.len() == 0 ==> written_text(
            source,
            translated,
        ).len() == 0,
{
}

pub fn translated_text(source: &str, translated: Vec<String>) -> (r: String)
    ensures
        r@ == written_text(source@, translated@),
        trim(source@) == seq!['\u{2026}'] ==> r@ == seq!['\u{2026}'],
        trim(source@) != seq!['\u{2026}'] && translated@.len() > 0 ==> r@ == translated@[0]@,
        trim(source@) != seq!['\u{2026}'] && translated@.len() == 0 ==> r@.len() == 0,
{
    proof {
        lemma_only_a_lone_ellipsis_is_kept(source@, translated@);
    }
    let t = trim_white_space(source);
    if t.unicode_len() == 1 && t.get_char(0) == '\u{2026}' {
        assert(t@ =~= seq!['\u{2026}']);
        let mut s = String::new();
        crate::text::push_char(&mut s, '\u{2026}');
        return s;
    }
    assert(!is_ellipsis(source@)) by {
        if t@ == seq!['\u{2026}'] {
            assert(t@.len() == 1 && t@[0] == '\u{2026}');
        }
    }
    let mut translated = translated;
    if translated.len() > 0 {
        translated.remove(0)
    } else {
        String::new()
    }
}

/// What happens to one bubble once its request has answered.
pub enum TranslationDecision<E> {
    /// The user wrote this bubble's translation: it is kept.
    KeepUserText,
    /// The request failed: the stage fails with its error.
    Fail(E),
    /// This text is written as the bubble's generated translation.
    Write(String),
}

/// A user-written translation is never overwritten, even when its request
/// failed; otherwise a failed request fails the stage and a successful one
/// is written (see `written_text`).
pub fn translation_decision<E>(user_authored: bool, source: &str, result: Result<Vec<String>, E>) -> (r:
    TranslationDecision<E>)
    ensures
        user_authored ==> r is KeepUserText,
        !user_authored ==> match result {
            Err(e) => r == TranslationDecision::<E>::Fail(e),
            Ok(texts) => r matches TranslationDecision::Write(text) && text@ == written_text(
                source@,
                texts@,
            ),
        },
        !user_authored && trim(source@) != seq!['\u{2026}'] ==> match result {
            Ok(texts) => texts@.len() > 0 ==> (r matches TranslationDecision::Write(text) && text@
                == texts@[0]@),
            Err(_) => true,
        },
{
    if user_authored {
        return TranslationDecision::KeepUserText;
    }
    match result {
        Err(e) => TranslationDecision::Fail(e),
        Ok(texts) => TranslationDecision::Write(translated_text(source, texts)),
    }
}

/// Some answer of `tagged` is tagged with position `p`.
pub open spec fn has_tag<R>(tagged: Seq<(usize, R)>, p: int) -> bool {
    exists|k: int| 0 <= k < tagged.len() && #[trigger] tagged[k].0 == p
}

/// The tags of `tagged` are exactly the positions `0..count`, each once:
/// every tag is below `count`, no two are equal, and every position has one.
pub open spec fn tags_are_positions<R>(tagged: Seq<(usize, R)>, count: nat) -> bool {
    &&& forall|k: int| 0 <= k < tagged.len() ==> #[trigger] tagged[k].0 < count
    &&& forall|j: int, k: int|
        0 <= j < k < tagged.len() ==> #[trigger] tagged[j].0 != #[trigger] tagged[k].0
    &&& forall|p: int| 0 <= p < count ==> #[trigger] has_tag(tagged, p)
}

/// Puts answers that arrive in any order, each tagged with the position of
/// its request, back in request order, so that every bubble gets the answer
/// to its own request. `None` when the tags are not exactly the positions
/// `0..count`, each once.
pub fn answers_in_order<R>(count: usize, tagged: Vec<(usize, R)>) -> (r: Option<Vec<R>>)
    ensures
        r is Some <==> tags_are_positions(tagged@, count as nat),
        r matches Some(v) ==> v@.len() == count && forall|k: int|
            0 <= k < tagged@.len() ==> v@[#[trigger] tagged@[k].0 as int] == tagged@[k].1,
{
    let ghost all = tagged@;
    let mut slots: Vec<Option<R>> = Vec::new();
    while slots.len() < count
        invariant
            slots@.len() <= count,
            forall|p: int| 0 <= p < slots@.len() ==> #[trigger] slots@[p] is None,
        decreases count - slots@.len(),
    {
        slots.push(None);
    }
    let mut rest = tagged;
    // The answers still in `rest` are the first ones of `all`; those after
    // them are in their slots.
    while rest.len() > 0
        invariant
            all == tagged@,
            slots@.len() == count,
            rest@ == all.take(rest@.len() as int),
            rest@.len() <= all.len(),
            forall|k: int| rest@.len() <= k < all.len() ==> #[trigger] all[k].0 < count,
            forall|j: int, k: int|
                rest@.len() <= j < k < all.len() ==> #[trigger] all[j].0 != #[trigger] all[k].0,
            forall|k: int|
                rest@.len() <= k < all.len() ==> #[trigger] slots@[all[k].0 as int] == Some(
                    all[k].1,
                ),
            forall|p: int|
                0 <= p < count ==> (#[trigger] slots@[p] is Some ==> exists|k: int|
                    rest@.len() <= k < all.len() && all[k].0 == p),
        decreases rest@.len(),
    {
        let ghost n = rest@.len() as int;
        let (tag, answer) = rest.pop().unwrap();
        assert(all[n - 1] == (tag, answer));
        if tag >= count {
            assert(!(all[n - 1].0 < count));
            return None;
        }
        if slots[tag].is_some() {
            let ghost k = choose|k: int| n <= k < all.len() && all[k].0 == tag;
            assert(all[n - 1].0 == all[k].0);
            return None;
        }
        slots.set(tag, Some(answer));
        assert(rest@ =~= all.take(n - 1));
        assert forall|k: int| n - 1 <= k < all.len() implies #[trigger] slots@[all[k].0 as int]
            == Some(all[k].1) by {
            if k >= n {
                assert(all[k].0 != all[n - 1].0);
            }
        }
        assert forall|p: int| 0 <= p < count && #[trigger] slots@[p] is Some implies exists|
            k: int,
        | n - 1 <= k < all.len() && all[k].0 == p by {
            if p == tag as int {
                assert(all[n - 1].0 == p);
            } else {
                let k = choose|k: int| n <= k < all.len() && all[k].0 == p;
                assert(n - 1 <= k < all.len() && all[k].0 == p);
            }
        }
    }
    let ghost filled = slots@;
    let mut answers: Vec<R> = Vec::new();
    let mut slots = slots;
    let mut i: usize = 0;
    while slots.len() > 0
        invariant
            all == tagged@,
            forall|k: int| 0 <= k < all.len() ==> #[trigger] all[k].0 < count,
            forall|j: int, k: int| 0 <= j < k < all.len() ==> #[trigger] all[j].0 != #[trigger] all[k].0,
            forall|k: int| 0 <= k < all.len() ==> #[trigger] filled[all[k].0 as int] == Some(all[k].1),
            forall|p: int| 0 <= p < count ==> (#[trigger] filled[p] is Some ==> exists|k: int|
                    0 <= k < all.len() && all[k].0 == p),
            i + slots@.len() == count,
            slots@ == filled.skip(i as int),
            filled.len() == count,
            answers@.len() == i,
            forall|p: int| 0 <= p < i ==> #[trigger] filled[p] == Some(answers@[p]),
        decreases slots@.len(),
    {
        assert(slots@[0] == filled[i as int]);
        match slots.remove(0) {
            Some(answer) => {
                answers.push(answer);
            },
            None => {
                proof {
                    if tags_are_positions(all, count as nat) {
                        assert(has_tag(all, i as int));
                        let k = choose|k: int| 0 <= k < all.len() && #[trigger] all[k].0 == i as int;
                        assert(filled[all[k].0 as int] == Some(all[k].1));
                    }
                }
                return None;
            },
        }
        assert(slots@ =~= filled.skip(i + 1));
        i = i + 1;
    }
    proof {
        assert forall|p: int| 0 <= p < count implies #[trigger] has_tag(all, p) by {
            assert(filled[p] is Some);
        }
        assert forall|k: int| 0 <= k < all.len() implies answers@[#[trigger] all[k].0 as int]
            == all[k].1 by {
            assert(filled[all[k].0 as int] == Some(all[k].1));
        }
    }
    Some(answers)
}

} // verus!
