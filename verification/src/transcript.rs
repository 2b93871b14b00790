//! From the service's responses to the texts that the client is shown.
//!
//! A response holds either a list of utterances or the whole text so far. An
//! utterance that is definite is final and is handed out once: the session
//! remembers the end time of the last one it handed out, and passes over any
//! that does not end later. Utterances that are not definite only make up the
//! preview of what is being said.
use crate::json::{member, parse_json};
use crate::text::{same_text, strip_prefix, trim};
use vstd::prelude::*;

#[allow(unused_imports)]
use crate::json::{json_parse, json_tree, JsonTree};
#[allow(unused_imports)]
use crate::text::{has_ink, law_trimming_settles, optional_text, texts, trimmed};

verus! {

/// One utterance of a response.
#[derive(Debug)]
pub struct Utterance {
    /// Whether the service has settled on the text.
    pub definite: bool,
    /// When it ends, in the service's time; -1 where the response does not say.
    pub end_time: i64,
    /// What was said.
    pub text: Option<String>,
}

/// What an [`Utterance`] holds.
pub struct UtteranceView {
    pub definite: bool,
    pub end_time: int,
    pub text: Option<Seq<char>>,
}

impl View for Utterance {
    type V = UtteranceView;

    open spec fn view(&self) -> UtteranceView {
        UtteranceView {
            definite: self.definite,
            end_time: self.end_time as int,
            text: optional_text(self.text),
        }
    }
}

/// The result in a response.
#[derive(Debug)]
pub enum AsrResult {
    Utterances(Vec<Utterance>),
    /// The whole text so far.
    Text(String),
    /// Neither, or no result at all.
    Nothing,
}

/// What an [`AsrResult`] holds.
pub enum AsrResultView {
    Utterances(Seq<UtteranceView>),
    Text(Seq<char>),
    Nothing,
}

/// What a list of utterances holds.
pub open spec fn utterance_views(list: Seq<Utterance>) -> Seq<UtteranceView> {
    Seq::new(list.len(), |i: int| list[i]@)
}

impl View for AsrResult {
    type V = AsrResultView;

    open spec fn view(&self) -> AsrResultView {
        match self {
            AsrResult::Utterances(list) => AsrResultView::Utterances(utterance_views(list@)),
            AsrResult::Text(text) => AsrResultView::Text(text@),
            AsrResult::Nothing => AsrResultView::Nothing,
        }
    }
}

/// A member of an object that is a string.
pub open spec fn string_member(tree: JsonTree, key: Seq<char>) -> Option<Seq<char>> {
    match tree.member(key) {
        Some(value) => value.string(),
        None => None,
    }
}

/// Whether a value is marked as definite: its member `definite` is true.
pub open spec fn marked_definite(tree: JsonTree) -> bool {
    tree.member("definite"@) matches Some(value) && value.truth() == Some(true)
}

/// The end time of an utterance: its member `end_time`, or -1 where that is
/// not a whole number.
pub open spec fn stated_end_time(tree: JsonTree) -> int {
    match tree.member("end_time"@) {
        Some(value) => match value.whole() {
            Some(n) => n,
            None => -1,
        },
        None => -1,
    }
}

/// The utterance that an element of the list denotes.
pub open spec fn utterance_of(tree: JsonTree) -> UtteranceView {
    UtteranceView {
        definite: marked_definite(tree),
        end_time: stated_end_time(tree),
        text: string_member(tree, "text"@),
    }
}

/// The utterances that a list denotes.
pub open spec fn utterances_of(items: Seq<JsonTree>) -> Seq<UtteranceView> {
    Seq::new(items.len(), |i: int| utterance_of(items[i]))
}

/// The list of utterances in a result, if there is one.
pub open spec fn utterance_list(result: JsonTree) -> Option<Seq<JsonTree>> {
    match result.member("utterances"@) {
        Some(value) => value.elements(),
        None => None,
    }
}

/// The result that a document carries: its member `result`, of which the member
/// `utterances` counts if it is a list, and else the member `text` if it is a
/// string.
pub open spec fn result_of(document: Option<JsonTree>) -> AsrResultView {
    match document {
        None => AsrResultView::Nothing,
        Some(tree) => match tree.member("result"@) {
            None => AsrResultView::Nothing,
            Some(result) => match utterance_list(result) {
                Some(items) => AsrResultView::Utterances(utterances_of(items)),
                None => match string_member(result, "text"@) {
                    Some(text) => AsrResultView::Text(text),
                    None => AsrResultView::Nothing,
                },
            },
        },
    }
}

/// The text of an utterance without the white space around it, if anything is
/// left.
pub open spec fn spoken(utterance: UtteranceView) -> Option<Seq<char>> {
    match utterance.text {
        Some(text) => if has_ink(text) {
            Some(trimmed(text))
        } else {
            None
        },
        None => None,
    }
}

/// An utterance is handed out if it is definite, ends later than the last one
/// handed out, and says something.
pub open spec fn is_news(utterance: UtteranceView, end_time: int) -> bool {
    utterance.definite && utterance.end_time > end_time && spoken(utterance) is Some
}

/// The end time of the last utterance handed out, after a list of them.
pub open spec fn end_time_after(list: Seq<UtteranceView>, end_time: int) -> int
    decreases list.len(),
{
    if list.len() == 0 {
        end_time
    } else {
        let before = end_time_after(list.drop_last(), end_time);
        if is_news(list.last(), before) {
            list.last().end_time
        } else {
            before
        }
    }
}

/// The texts that are handed out of a list of utterances.
pub open spec fn finals_of(list: Seq<UtteranceView>, end_time: int) -> Seq<Seq<char>>
    decreases list.len(),
{
    if list.len() == 0 {
        seq![]
    } else {
        let before = finals_of(list.drop_last(), end_time);
        if is_news(list.last(), end_time_after(list.drop_last(), end_time)) {
            before.push(spoken(list.last())->0)
        } else {
            before
        }
    }
}

/// The preview: the text of the last utterance that is not definite and says
/// something.
pub open spec fn preview_of(list: Seq<UtteranceView>) -> Option<Seq<char>>
    decreases list.len(),
{
    if list.len() == 0 {
        None
    } else if !list.last().definite && spoken(list.last()) is Some {
        spoken(list.last())
    } else {
        preview_of(list.drop_last())
    }
}

/// What a response gives: a preview, final texts, and what the session
/// remembers from then on.
pub struct Outcome {
    pub partial: Option<Seq<char>>,
    pub finals: Seq<Seq<char>>,
    pub end_time: int,
    pub full_text: Seq<char>,
}

/// The final texts that a whole text gives when another whole text came before
/// it. If it continues that one, only the continuation is new.
pub open spec fn finals_of_text(full: Seq<char>, before: Seq<char>) -> Seq<Seq<char>> {
    if before.len() > 0 && before.is_prefix_of(full) {
        let rest = full.skip(before.len() as int);
        if has_ink(rest) {
            seq![trimmed(rest)]
        } else {
            seq![]
        }
    } else if full != before {
        seq![full]
    } else {
        seq![]
    }
}

/// What a result gives, in a session of the given mode that has handed out
/// utterances up to `end_time` and last saw the whole text `full_text`. In the
/// mode `bidi_async` a whole text is preview and final text at once.
pub open spec fn outcome(
    result: AsrResultView,
    end_time: int,
    full_text: Seq<char>,
    mode: Seq<char>,
) -> Outcome {
    match result {
        AsrResultView::Utterances(list) => Outcome {
            partial: preview_of(list),
            finals: finals_of(list, end_time),
            end_time: end_time_after(list, end_time),
            full_text,
        },
        AsrResultView::Text(text) => if !has_ink(text) {
            Outcome { partial: None, finals: seq![], end_time, full_text }
        } else if mode == "bidi_async"@ {
            Outcome {
                partial: Some(trimmed(text)),
                finals: seq![trimmed(text)],
                end_time,
                full_text: trimmed(text),
            }
        } else {
            Outcome {
                partial: None,
                finals: finals_of_text(trimmed(text), full_text),
                end_time,
                full_text: trimmed(text),
            }
        },
        AsrResultView::Nothing => Outcome { partial: None, finals: seq![], end_time, full_text },
    }
}

fn read_string_member(value: &serde_json::Value, key: &str) -> (text: Option<String>)
    ensures
        optional_text(text) == string_member(json_tree(*value), key@),
{
    match member(value, key) {
        Some(found) => match found.as_str() {
            Some(text) => Some(text.to_owned()),
            None => None,
        },
        None => None,
    }
}

fn read_utterance(value: &serde_json::Value) -> (utterance: Utterance)
    ensures
        utterance@ == utterance_of(json_tree(*value)),
{
    let definite = match member(value, "definite") {
        Some(found) => found.as_bool().unwrap_or(false),
        None => false,
    };
    let end_time: i64 = match member(value, "end_time") {
        Some(found) => found.as_i64().unwrap_or(-1),
        None => -1,
    };
    let text = read_string_member(value, "text");
    Utterance { definite, end_time, text }
}

fn read_utterances(items: &Vec<serde_json::Value>) -> (list: Vec<Utterance>)
    ensures
        utterance_views(list@) == utterances_of(Seq::new(items@.len(), |i: int| json_tree(items@[i]))),
{
    let mut list: Vec<Utterance> = Vec::new();
    for i in 0..items.len()
        invariant
            list@.len() == i,
            forall|j: int| 0 <= j < i ==> (#[trigger] list@[j])@ == utterance_of(json_tree(items@[j])),
    {
        list.push(read_utterance(&items[i]));
    }
    assert(utterance_views(list@) =~= utterances_of(
        Seq::new(items@.len(), |i: int| json_tree(items@[i])),
    ));
    list
}

/// Reads the result out of the text of a response. A text that is no JSON has
/// none.
pub fn read_result(json_text: &str) -> (result: AsrResult)
    ensures
        result@ == result_of(json_parse(json_text@)),
{
    let document = match parse_json(json_text) {
        Some(value) => value,
        None => {
            return AsrResult::Nothing;
        },
    };
    let result = match member(&document, "result") {
        Some(value) => value,
        None => {
            return AsrResult::Nothing;
        },
    };
    if let Some(value) = member(result, "utterances") {
        if let Some(items) = value.as_array() {
            return AsrResult::Utterances(read_utterances(items));
        }
    }
    match read_string_member(result, "text") {
        Some(text) => AsrResult::Text(text),
        None => AsrResult::Nothing,
    }
}

fn spoken_text(utterance: &Utterance) -> (text: Option<String>)
    ensures
        optional_text(text) == spoken(utterance@),
{
    match &utterance.text {
        Some(text) => {
            let rest = trim(text.as_str());
            if rest.is_empty() {
                None
            } else {
                Some(rest.to_owned())
            }
        },
        None => None,
    }
}

fn commit_utterances(list: &Vec<Utterance>, last_committed_end_time: &mut i64) -> (finals: Vec<String>)
    ensures
        texts(finals@) == finals_of(utterance_views(list@), *old(last_committed_end_time) as int),
        *final(last_committed_end_time) == end_time_after(
            utterance_views(list@),
            *old(last_committed_end_time) as int,
        ),
{
    let mut finals: Vec<String> = Vec::new();
    let ghost views = utterance_views(list@);
    let ghost start = *last_committed_end_time as int;
    let mut end_time: i64 = *last_committed_end_time;
    assert(texts(finals@) =~= finals_of(views.take(0), start));
    for i in 0..list.len()
        invariant
            views == utterance_views(list@),
            texts(finals@) == finals_of(views.take(i as int), start),
            end_time == end_time_after(views.take(i as int), start),
    {
        let utterance = &list[i];
        assert(views.take(i + 1).drop_last() =~= views.take(i as int));
        assert(views.take(i + 1).last() == utterance@);
        if utterance.definite && utterance.end_time > end_time {
            if let Some(text) = spoken_text(utterance) {
                let ghost before = finals@;
                finals.push(text);
                end_time = utterance.end_time;
                assert(texts(finals@) =~= texts(before).push(text@));
            }
        }
    }
    assert(views.take(views.len() as int) =~= views);
    *last_committed_end_time = end_time;
    finals
}

fn preview(list: &Vec<Utterance>) -> (partial: Option<String>)
    ensures
        optional_text(partial) == preview_of(utterance_views(list@)),
{
    let ghost views = utterance_views(list@);
    let mut left: usize = list.len();
    assert(views.take(views.len() as int) =~= views);
    while left > 0
        invariant
            left <= list@.len(),
            views == utterance_views(list@),
            preview_of(views.take(left as int)) == preview_of(views),
        decreases left,
    {
        left = left - 1;
        let utterance = &list[left];
        assert(views.take(left + 1).drop_last() =~= views.take(left as int));
        assert(views.take(left + 1).last() == utterance@);
        if !utterance.definite {
            if let Some(text) = spoken_text(utterance) {
                return Some(text);
            }
        }
    }
    None
}

fn commit_whole_text(full: &str, last_full_text: &str) -> (finals: Vec<String>)
    ensures
        texts(finals@) == finals_of_text(full@, last_full_text@),
{
    let mut finals: Vec<String> = Vec::new();
    if !last_full_text.is_empty() {
        if let Some(rest) = strip_prefix(full, last_full_text) {
            let suffix = trim(rest);
            if !suffix.is_empty() {
                finals.push(suffix.to_owned());
            }
            assert(texts(finals@) =~= finals_of_text(full@, last_full_text@));
            return finals;
        }
    }
    if !same_text(full, last_full_text) {
        finals.push(full.to_owned());
    }
    assert(texts(finals@) =~= finals_of_text(full@, last_full_text@));
    finals
}

/// Takes a result into account: returns the preview and the final texts that it
/// gives, and updates what the session remembers.
pub fn commit_result(
    result: &AsrResult,
    last_committed_end_time: &mut i64,
    last_full_text: &mut String,
    mode: &str,
) -> (shown: (Option<String>, Vec<String>))
    ensures
        ({
            let after = outcome(
                result@,
                *old(last_committed_end_time) as int,
                old(last_full_text)@,
                mode@,
            );
            &&& optional_text(shown.0) == after.partial
            &&& texts(shown.1@) == after.finals
            &&& *final(last_committed_end_time) == after.end_time
            &&& final(last_full_text)@ == after.full_text
        }),
{
    match result {
        AsrResult::Utterances(list) => {
            let finals = commit_utterances(list, last_committed_end_time);
            (preview(list), finals)
        },
        AsrResult::Text(text) => {
            let full = trim(text.as_str()).to_owned();
            if full.as_str().is_empty() {
                let finals: Vec<String> = Vec::new();
                assert(texts(finals@) =~= Seq::<Seq<char>>::empty());
                return (None, finals);
            }
            if same_text(mode, "bidi_async") {
                let mut finals: Vec<String> = Vec::new();
                finals.push(full.clone());
                assert(texts(finals@) =~= seq![full@]);
                let partial = Some(full.clone());
                *last_full_text = full;
                (partial, finals)
            } else {
                let finals = commit_whole_text(full.as_str(), last_full_text.as_str());
                *last_full_text = full;
                (None, finals)
            }
        },
        AsrResult::Nothing => {
            let finals: Vec<String> = Vec::new();
            assert(texts(finals@) =~= Seq::<Seq<char>>::empty());
            (None, finals)
        },
    }
}

/// Takes the text of a response into account: returns the preview and the final
/// texts that it gives, and updates what the session remembers.
pub fn parse_asr_texts(
    json_text: &str,
    last_committed_end_time: &mut i64,
    last_full_text: &mut String,
    mode: &str,
) -> (shown: (Option<String>, Vec<String>))
    ensures
        ({
            let after = outcome(
                result_of(json_parse(json_text@)),
                *old(last_committed_end_time) as int,
                old(last_full_text)@,
                mode@,
            );
            &&& optional_text(shown.0) == after.partial
            &&& texts(shown.1@) == after.finals
            &&& *final(last_committed_end_time) == after.end_time
            &&& final(last_full_text)@ == after.full_text
        }),
{
    let result = read_result(json_text);
    commit_result(&result, last_committed_end_time, last_full_text, mode)
}

/// The end times of the utterances that are handed out of a list.
pub open spec fn end_times_of(list: Seq<UtteranceView>, end_time: int) -> Seq<int>
    decreases list.len(),
{
    if list.len() == 0 {
        seq![]
    } else {
        let before = end_times_of(list.drop_last(), end_time);
        if is_news(list.last(), end_time_after(list.drop_last(), end_time)) {
            before.push(list.last().end_time)
        } else {
            before
        }
    }
}

/// Every number is greater than the one before it.
pub open spec fn rising(times: Seq<int>) -> bool {
    forall|i: int, j: int| 0 <= i < j < times.len() ==> times[i] < times[j]
}

/// Every number lies above `low` and not above `high`.
pub open spec fn within(times: Seq<int>, low: int, high: int) -> bool {
    forall|i: int| 0 <= i < times.len() ==> low < #[trigger] times[i] <= high
}

/// Rising times followed by later rising times rise.
pub(crate) proof fn lemma_rising_concat(a: Seq<int>, b: Seq<int>, low: int, middle: int, high: int)
    requires
        low <= middle <= high,
        rising(a),
        rising(b),
        within(a, low, middle),
        within(b, middle, high),
    ensures
        rising(a + b),
        within(a + b, low, high),
{
    let all = a + b;
    assert forall|i: int| 0 <= i < all.len() implies low < #[trigger] all[i] <= high by {
        if i < a.len() {
            assert(all[i] == a[i]);
        } else {
            assert(all[i] == b[i - a.len()]);
        }
    }
    assert forall|i: int, j: int| 0 <= i < j < all.len() implies all[i] < all[j] by {
        if j < a.len() {
            assert(all[i] == a[i] && all[j] == a[j]);
        } else if i >= a.len() {
            assert(all[i] == b[i - a.len()] && all[j] == b[j - a.len()]);
        } else {
            assert(all[i] == a[i] && all[j] == b[j - a.len()]);
        }
    }
}

/// A definite utterance that ends at the given time says the given text.
pub open spec fn says_at(utterance: UtteranceView, time: int, text: Seq<char>) -> bool {
    utterance.definite && utterance.end_time == time && spoken(utterance) == Some(text)
}

/// Some utterance of a list ends at the given time and says the given text.
pub open spec fn said_at(list: Seq<UtteranceView>, time: int, text: Seq<char>) -> bool {
    exists|k: int| 0 <= k < list.len() && says_at(#[trigger] list[k], time, text)
}

/// The end times of the texts handed out of a list rise, from above the time
/// that was reached before to the time that is reached after it. There is one
/// for each text: an utterance of the list ends at that time and says that text.
pub proof fn law_end_times_rise(list: Seq<UtteranceView>, end_time: int)
    ensures
        end_times_of(list, end_time).len() == finals_of(list, end_time).len(),
        forall|i: int|
            0 <= i < finals_of(list, end_time).len() ==> said_at(
                list,
                #[trigger] end_times_of(list, end_time)[i],
                finals_of(list, end_time)[i],
            ),
        rising(end_times_of(list, end_time)),
        within(end_times_of(list, end_time), end_time, end_time_after(list, end_time)),
        end_time_after(list, end_time) >= end_time,
        end_time_after(list, end_time) > end_time <==> finals_of(list, end_time).len() > 0,
    decreases list.len(),
{
    if list.len() > 0 {
        let earlier = list.drop_last();
        law_end_times_rise(earlier, end_time);
        let times = end_times_of(list, end_time);
        let texts = finals_of(list, end_time);
        let old_times = end_times_of(earlier, end_time);
        let old_texts = finals_of(earlier, end_time);
        assert forall|i: int| 0 <= i < texts.len() implies said_at(
            list,
            #[trigger] times[i],
            texts[i],
        ) by {
            if i < old_texts.len() {
                assert(times[i] == old_times[i] && texts[i] == old_texts[i]);
                assert(said_at(earlier, old_times[i], old_texts[i]));
                let k = choose|k: int|
                    0 <= k < earlier.len() && says_at(#[trigger] earlier[k], times[i], texts[i]);
                assert(says_at(list[k], times[i], texts[i]));
            } else {
                assert(says_at(list[list.len() - 1], times[i], texts[i]));
            }
        }
    }
}

/// The time that a session has reached after some lists of utterances.
pub open spec fn session_end_time(lists: Seq<Seq<UtteranceView>>, end_time: int) -> int
    decreases lists.len(),
{
    if lists.len() == 0 {
        end_time
    } else {
        end_time_after(lists.last(), session_end_time(lists.drop_last(), end_time))
    }
}

/// The end times of all the utterances that a session hands out.
pub open spec fn session_end_times(lists: Seq<Seq<UtteranceView>>, end_time: int) -> Seq<int>
    decreases lists.len(),
{
    if lists.len() == 0 {
        seq![]
    } else {
        session_end_times(lists.drop_last(), end_time) + end_times_of(
            lists.last(),
            session_end_time(lists.drop_last(), end_time),
        )
    }
}

/// No utterance is handed out twice: over a whole session, however often the
/// service repeats itself, the end times of the utterances handed out rise.
pub proof fn law_utterances_are_handed_out_once(lists: Seq<Seq<UtteranceView>>, end_time: int)
    ensures
        rising(session_end_times(lists, end_time)),
        session_end_time(lists, end_time) >= end_time,
        within(
            session_end_times(lists, end_time),
            end_time,
            session_end_time(lists, end_time),
        ),
    decreases lists.len(),
{
    if lists.len() > 0 {
        let earlier = lists.drop_last();
        let reached = session_end_time(earlier, end_time);
        law_utterances_are_handed_out_once(earlier, end_time);
        law_end_times_rise(lists.last(), reached);
        lemma_rising_concat(
            session_end_times(earlier, end_time),
            end_times_of(lists.last(), reached),
            end_time,
            reached,
            session_end_time(lists, end_time),
        );
    }
}

/// No utterance of a list would be handed out at the given time.
spec fn all_old(list: Seq<UtteranceView>, end_time: int) -> bool {
    forall|i: int|
        0 <= i < list.len() && (#[trigger] list[i]).definite && spoken(list[i]) is Some
            ==> list[i].end_time <= end_time
}

proof fn lemma_list_becomes_old(list: Seq<UtteranceView>, end_time: int)
    ensures
        all_old(list, end_time_after(list, end_time)),
    decreases list.len(),
{
    if list.len() > 0 {
        lemma_list_becomes_old(list.drop_last(), end_time);
        assert forall|i: int|
            0 <= i < list.len() && (#[trigger] list[i]).definite && spoken(
                list[i],
            ) is Some implies list[i].end_time <= end_time_after(list, end_time) by {
            if i < list.len() - 1 {
                assert(list[i] == list.drop_last()[i]);
            }
        }
    }
}

proof fn lemma_old_list_gives_nothing(list: Seq<UtteranceView>, end_time: int)
    requires
        all_old(list, end_time),
    ensures
        finals_of(list, end_time) == Seq::<Seq<char>>::empty(),
        end_time_after(list, end_time) == end_time,
    decreases list.len(),
{
    if list.len() > 0 {
        let earlier = list.drop_last();
        assert forall|i: int|
            0 <= i < earlier.len() && (#[trigger] earlier[i]).definite && spoken(
                earlier[i],
            ) is Some implies earlier[i].end_time <= end_time by {
            assert(earlier[i] == list[i]);
        }
        lemma_old_list_gives_nothing(earlier, end_time);
    }
}

/// A response that comes twice gives its final texts once: the second time
/// there are none, the preview is the same, and nothing else changes. Only a
/// whole text in the mode `bidi_async` is handed out again.
pub proof fn law_repetition_gives_no_finals(
    result: AsrResultView,
    end_time: int,
    full_text: Seq<char>,
    mode: Seq<char>,
)
    requires
        result is Text ==> mode != "bidi_async"@,
    ensures
        ({
            let first = outcome(result, end_time, full_text, mode);
            let second = outcome(result, first.end_time, first.full_text, mode);
            &&& second.finals == Seq::<Seq<char>>::empty()
            &&& second.partial == first.partial
            &&& second.end_time == first.end_time
            &&& second.full_text == first.full_text
        }),
{
    match result {
        AsrResultView::Utterances(list) => {
            lemma_list_becomes_old(list, end_time);
            lemma_old_list_gives_nothing(list, end_time_after(list, end_time));
        },
        AsrResultView::Text(text) => {
            if has_ink(text) {
                let full = trimmed(text);
                assert(full.is_prefix_of(full));
                assert(full.skip(full.len() as int) =~= Seq::<char>::empty());
                assert(!has_ink(Seq::<char>::empty()));
            }
        },
        AsrResultView::Nothing => {},
    }
}

/// A text fit to be shown: not blank, and without white space around it.
pub open spec fn presentable(text: Seq<char>) -> bool {
    text.len() > 0 && trimmed(text) == text
}

proof fn lemma_spoken_is_presentable(utterance: UtteranceView)
    ensures
        spoken(utterance) matches Some(text) ==> presentable(text),
{
    if let Some(text) = utterance.text {
        law_trimming_settles(text);
    }
}

proof fn lemma_finals_are_presentable(list: Seq<UtteranceView>, end_time: int)
    ensures
        forall|i: int|
            0 <= i < finals_of(list, end_time).len() ==> presentable(
                #[trigger] finals_of(list, end_time)[i],
            ),
    decreases list.len(),
{
    if list.len() > 0 {
        let earlier = finals_of(list.drop_last(), end_time);
        let all = finals_of(list, end_time);
        lemma_finals_are_presentable(list.drop_last(), end_time);
        lemma_spoken_is_presentable(list.last());
        assert forall|i: int| 0 <= i < all.len() implies presentable(#[trigger] all[i]) by {
            if i < earlier.len() {
                assert(all[i] == earlier[i]);
            }
        }
    }
}

proof fn lemma_preview_is_presentable(list: Seq<UtteranceView>)
    ensures
        preview_of(list) matches Some(text) ==> presentable(text),
    decreases list.len(),
{
    if list.len() > 0 {
        lemma_preview_is_presentable(list.drop_last());
        lemma_spoken_is_presentable(list.last());
    }
}

/// Every text that a response gives, preview or final, is fit to be shown.
pub proof fn law_shown_texts_are_presentable(
    result: AsrResultView,
    end_time: int,
    full_text: Seq<char>,
    mode: Seq<char>,
)
    ensures
        ({
            let after = outcome(result, end_time, full_text, mode);
            &&& after.partial matches Some(text) ==> presentable(text)
            &&& forall|i: int| 0 <= i < after.finals.len() ==> presentable(#[trigger] after.finals[i])
        }),
{
    match result {
        AsrResultView::Utterances(list) => {
            lemma_finals_are_presentable(list, end_time);
            lemma_preview_is_presentable(list);
        },
        AsrResultView::Text(text) => {
            law_trimming_settles(text);
            law_trimming_settles(trimmed(text).skip(full_text.len() as int));
        },
        AsrResultView::Nothing => {},
    }
}

/// A whole text that continues the one before it gives the continuation alone,
/// without the white space around it.
pub proof fn law_continued_text_gives_the_continuation(
    before: Seq<char>,
    more: Seq<char>,
    end_time: int,
    mode: Seq<char>,
)
    requires
        mode != "bidi_async"@,
        before.len() > 0,
        presentable(before + more),
    ensures
        ({
            let after = outcome(AsrResultView::Text(before + more), end_time, before, mode);
            &&& after.partial is None
            &&& after.finals == (if has_ink(more) {
                seq![trimmed(more)]
            } else {
                seq![]
            })
            &&& after.full_text == before + more
        }),
{
    let full = before + more;
    assert(before.is_prefix_of(full));
    assert(full.skip(before.len() as int) =~= more);
}

/// An utterance has a text with more than white space in it.
pub open spec fn has_words(utterance: UtteranceView) -> bool {
    utterance.text is Some && trimmed(utterance.text->0).len() > 0
}

/// An utterance of a list is new: it is definite, has words, and ends later than
/// the time reached before the list and than every definite utterance with words
/// that comes before it.
pub open spec fn unseen(list: Seq<UtteranceView>, end_time: int, k: int) -> bool {
    &&& 0 <= k < list.len()
    &&& list[k].definite
    &&& has_words(list[k])
    &&& list[k].end_time > end_time
    &&& forall|j: int|
        0 <= j < k && (#[trigger] list[j]).definite && has_words(list[j]) ==> list[j].end_time
            < list[k].end_time
}

/// How many of the first `n` utterances of a list are new.
pub open spec fn unseen_among(list: Seq<UtteranceView>, end_time: int, n: int) -> int
    decreases n,
{
    if n <= 0 {
        0
    } else if unseen(list, end_time, n - 1) {
        unseen_among(list, end_time, n - 1) + 1
    } else {
        unseen_among(list, end_time, n - 1)
    }
}

proof fn lemma_end_time_is_the_latest(list: Seq<UtteranceView>, end_time: int)
    ensures
        end_time_after(list, end_time) >= end_time,
        forall|k: int|
            0 <= k < list.len() && (#[trigger] list[k]).definite && has_words(list[k])
                ==> list[k].end_time <= end_time_after(list, end_time),
        end_time_after(list, end_time) == end_time || exists|k: int|
            0 <= k < list.len() && (#[trigger] list[k]).definite && has_words(list[k])
                && list[k].end_time == end_time_after(list, end_time),
    decreases list.len(),
{
    if list.len() > 0 {
        let earlier = list.drop_last();
        lemma_end_time_is_the_latest(earlier, end_time);
        let before = end_time_after(earlier, end_time);
        let after = end_time_after(list, end_time);
        assert forall|k: int|
            0 <= k < list.len() && (#[trigger] list[k]).definite && has_words(
                list[k],
            ) implies list[k].end_time <= after by {
            if k < earlier.len() {
                assert(earlier[k] == list[k]);
            }
        }
        if after != end_time {
            if is_news(list.last(), before) {
                assert(list[list.len() - 1].end_time == after);
            } else {
                let k = choose|k: int|
                    0 <= k < earlier.len() && (#[trigger] earlier[k]).definite && has_words(earlier[k])
                        && earlier[k].end_time == before;
                assert(list[k] == earlier[k]);
            }
        }
    }
}

/// The time that a session remembers after a list of utterances is the latest of
/// the time it remembered before and of the end times of all definite utterances
/// with words; the whole text that it remembers is untouched.
pub proof fn law_remembered_time_is_the_latest(
    list: Seq<UtteranceView>,
    end_time: int,
    full_text: Seq<char>,
    mode: Seq<char>,
)
    ensures
        ({
            let after = outcome(AsrResultView::Utterances(list), end_time, full_text, mode);
            &&& after.end_time >= end_time
            &&& forall|k: int|
                0 <= k < list.len() && (#[trigger] list[k]).definite && has_words(list[k])
                    ==> list[k].end_time <= after.end_time
            &&& after.end_time == end_time || exists|k: int|
                0 <= k < list.len() && (#[trigger] list[k]).definite && has_words(list[k])
                    && list[k].end_time == after.end_time
            &&& after.full_text == full_text
        }),
{
    lemma_end_time_is_the_latest(list, end_time);
}

proof fn lemma_news_is_unseen(list: Seq<UtteranceView>, end_time: int)
    requires
        list.len() > 0,
    ensures
        is_news(list.last(), end_time_after(list.drop_last(), end_time)) <==> unseen(
            list,
            end_time,
            list.len() - 1,
        ),
{
    let earlier = list.drop_last();
    let before = end_time_after(earlier, end_time);
    lemma_end_time_is_the_latest(earlier, end_time);
    if list.last().end_time > before {
        assert forall|j: int|
            0 <= j < list.len() - 1 && (#[trigger] list[j]).definite && has_words(
                list[j],
            ) implies list[j].end_time < list.last().end_time by {
            assert(earlier[j] == list[j]);
        }
    }
    if unseen(list, end_time, list.len() - 1) && before != end_time {
        let k = choose|k: int|
            0 <= k < earlier.len() && (#[trigger] earlier[k]).definite && has_words(earlier[k])
                && earlier[k].end_time == before;
        assert(list[k] == earlier[k]);
    }
}

proof fn lemma_unseen_in_a_prefix(list: Seq<UtteranceView>, end_time: int, k: int)
    requires
        list.len() > 0,
        k < list.len() - 1,
    ensures
        unseen(list.drop_last(), end_time, k) <==> unseen(list, end_time, k),
{
    let earlier = list.drop_last();
    if 0 <= k {
        assert(earlier[k] == list[k]);
        assert forall|j: int| 0 <= j < k implies earlier[j] == list[j] by {}
        if unseen(earlier, end_time, k) {
            assert forall|j: int|
                0 <= j < k && (#[trigger] list[j]).definite && has_words(list[j]) implies list[j].end_time
                < list[k].end_time by {
                assert(earlier[j] == list[j]);
            }
        }
        if unseen(list, end_time, k) {
            assert forall|j: int|
                0 <= j < k && (#[trigger] earlier[j]).definite && has_words(
                    earlier[j],
                ) implies earlier[j].end_time < earlier[k].end_time by {
                assert(earlier[j] == list[j]);
            }
        }
    }
}

proof fn lemma_unseen_among_a_prefix(list: Seq<UtteranceView>, end_time: int, n: int)
    requires
        list.len() > 0,
        n <= list.len() - 1,
    ensures
        unseen_among(list.drop_last(), end_time, n) == unseen_among(list, end_time, n),
    decreases n,
{
    if n > 0 {
        lemma_unseen_in_a_prefix(list, end_time, n - 1);
        lemma_unseen_among_a_prefix(list, end_time, n - 1);
    }
}

proof fn lemma_finals_are_complete(list: Seq<UtteranceView>, end_time: int)
    ensures
        finals_of(list, end_time).len() == unseen_among(list, end_time, list.len() as int),
        forall|k: int|
            #[trigger] unseen(list, end_time, k) ==> 0 <= unseen_among(list, end_time, k)
                < finals_of(list, end_time).len() && finals_of(list, end_time)[unseen_among(
                list,
                end_time,
                k,
            )] == trimmed(list[k].text->0),
    decreases list.len(),
{
    if list.len() > 0 {
        let earlier = list.drop_last();
        let old_finals = finals_of(earlier, end_time);
        let finals = finals_of(list, end_time);
        lemma_finals_are_complete(earlier, end_time);
        lemma_news_is_unseen(list, end_time);
        lemma_unseen_among_a_prefix(list, end_time, list.len() - 1);
        assert forall|k: int| #[trigger] unseen(list, end_time, k) implies 0 <= unseen_among(
            list,
            end_time,
            k,
        ) < finals.len() && finals[unseen_among(list, end_time, k)] == trimmed(list[k].text->0) by {
            if k < list.len() - 1 {
                lemma_unseen_in_a_prefix(list, end_time, k);
                lemma_unseen_among_a_prefix(list, end_time, k);
                assert(unseen(earlier, end_time, k));
                assert(finals[unseen_among(list, end_time, k)] == old_finals[unseen_among(
                    list,
                    end_time,
                    k,
                )]);
            }
        }
    }
}

/// Every new utterance is handed out, and nothing else is: there are as many
/// final texts as new utterances, and the text of each, without the white space
/// around it, stands where the number of new utterances before it says.
pub proof fn law_every_new_utterance_is_handed_out(
    list: Seq<UtteranceView>,
    end_time: int,
    full_text: Seq<char>,
    mode: Seq<char>,
)
    ensures
        ({
            let finals = outcome(AsrResultView::Utterances(list), end_time, full_text, mode).finals;
            &&& finals.len() == unseen_among(list, end_time, list.len() as int)
            &&& forall|k: int|
                #[trigger] unseen(list, end_time, k) ==> 0 <= unseen_among(list, end_time, k)
                    < finals.len() && finals[unseen_among(list, end_time, k)] == trimmed(list[k].text->0)
        }),
{
    lemma_finals_are_complete(list, end_time);
}

/// In a list of definite utterances with words whose end times rise from above
/// the time reached before, every utterance is handed out in its place, and the
/// last one's end time is remembered.
pub proof fn law_rising_utterances_are_all_handed_out(
    list: Seq<UtteranceView>,
    end_time: int,
    full_text: Seq<char>,
    mode: Seq<char>,
)
    requires
        forall|k: int|
            0 <= k < list.len() ==> (#[trigger] list[k]).definite && has_words(list[k])
                && list[k].end_time > end_time,
        forall|j: int, k: int| 0 <= j < k < list.len() ==> list[j].end_time < list[k].end_time,
    ensures
        ({
            let after = outcome(AsrResultView::Utterances(list), end_time, full_text, mode);
            &&& after.finals.len() == list.len()
            &&& forall|k: int|
                0 <= k < list.len() ==> #[trigger] after.finals[k] == trimmed(list[k].text->0)
            &&& after.partial is None
            &&& list.len() > 0 ==> after.end_time == list.last().end_time
        }),
    decreases list.len(),
{
    if list.len() > 0 {
        let earlier = list.drop_last();
        assert forall|k: int| 0 <= k < earlier.len() implies (#[trigger] earlier[k]).definite && has_words(
            earlier[k],
        ) && earlier[k].end_time > end_time by {
            assert(earlier[k] == list[k]);
        }
        law_rising_utterances_are_all_handed_out(earlier, end_time, full_text, mode);
        assert(list[list.len() - 1] == list.last());
        if earlier.len() > 0 {
            assert(earlier.last() == list[list.len() - 2]);
        }
    }
}

/// An utterance is the last of a list that is not definite and has words.
pub open spec fn is_last_unfinished(list: Seq<UtteranceView>, k: int) -> bool {
    &&& 0 <= k < list.len()
    &&& !list[k].definite
    &&& has_words(list[k])
    &&& forall|j: int| k < j < list.len() ==> (#[trigger] list[j]).definite || !has_words(list[j])
}

proof fn lemma_preview_is_the_last_unfinished(list: Seq<UtteranceView>)
    ensures
        preview_of(list) is None <==> forall|k: int|
            0 <= k < list.len() ==> (#[trigger] list[k]).definite || !has_words(list[k]),
        forall|k: int| #[trigger]
            is_last_unfinished(list, k) ==> preview_of(list) == Some(trimmed(list[k].text->0)),
    decreases list.len(),
{
    if list.len() > 0 {
        let earlier = list.drop_last();
        let n = list.len() - 1;
        lemma_preview_is_the_last_unfinished(earlier);
        assert(list[n] == list.last());
        if list[n].definite || !has_words(list[n]) {
            assert(preview_of(list) == preview_of(earlier));
            if preview_of(earlier) is None {
                assert forall|k: int| 0 <= k < list.len() implies (#[trigger] list[k]).definite
                    || !has_words(list[k]) by {
                    if k < n {
                        assert(list[k] == earlier[k]);
                    }
                }
            } else {
                let k = choose|k: int|
                    0 <= k < earlier.len() && !((#[trigger] earlier[k]).definite || !has_words(earlier[k]));
                assert(list[k] == earlier[k]);
            }
            assert forall|k: int| #[trigger] is_last_unfinished(list, k) implies preview_of(list) == Some(
                trimmed(list[k].text->0),
            ) by {
                assert(k < n);
                assert(earlier[k] == list[k]);
                assert forall|j: int| k < j < earlier.len() implies (#[trigger] earlier[j]).definite
                    || !has_words(earlier[j]) by {
                    assert(list[j] == earlier[j]);
                }
                assert(is_last_unfinished(earlier, k));
            }
        } else {
            assert(preview_of(list) == Some(trimmed(list[n].text->0)));
            assert forall|k: int| #[trigger] is_last_unfinished(list, k) implies preview_of(list) == Some(
                trimmed(list[k].text->0),
            ) by {
                if k < n {
                    assert(list[n].definite || !has_words(list[n]));
                }
            }
        }
    }
}

/// The preview is the text of the last utterance that is not definite and has
/// words, without the white space around it; there is none if no utterance is
/// such.
pub proof fn law_preview_is_the_last_unfinished(
    list: Seq<UtteranceView>,
    end_time: int,
    full_text: Seq<char>,
    mode: Seq<char>,
)
    ensures
        ({
            let partial = outcome(AsrResultView::Utterances(list), end_time, full_text, mode).partial;
            &&& partial is None <==> forall|k: int|
                0 <= k < list.len() ==> (#[trigger] list[k]).definite || !has_words(list[k])
            &&& forall|k: int| #[trigger]
                is_last_unfinished(list, k) ==> partial == Some(trimmed(list[k].text->0))
        }),
{
    lemma_preview_is_the_last_unfinished(list);
}

/// In the mode `bidi_async` every whole text with words is preview and only final
/// text at once, without the white space around it, whatever came before it, and
/// is remembered.
pub proof fn law_whole_text_is_shown_at_once(text: Seq<char>, end_time: int, full_text: Seq<char>)
    requires
        trimmed(text).len() > 0,
    ensures
        ({
            let after = outcome(AsrResultView::Text(text), end_time, full_text, "bidi_async"@);
            &&& after.partial == Some(trimmed(text))
            &&& after.finals == seq![trimmed(text)]
            &&& after.full_text == trimmed(text)
            &&& after.end_time == end_time
        }),
{
}

/// In any other mode a whole text with words is remembered and gives no preview.
/// If it continues the remembered text, what it adds is its only final text,
/// unless that is blank; if it does not, or if nothing was remembered, it is
/// itself its only final text.
pub proof fn law_whole_text_gives_what_is_new(
    text: Seq<char>,
    end_time: int,
    full_text: Seq<char>,
    mode: Seq<char>,
)
    requires
        mode != "bidi_async"@,
        trimmed(text).len() > 0,
    ensures
        ({
            let after = outcome(AsrResultView::Text(text), end_time, full_text, mode);
            let continues = full_text.len() > 0 && full_text.is_prefix_of(trimmed(text));
            &&& after.partial is None
            &&& after.full_text == trimmed(text)
            &&& after.end_time == end_time
            &&& !continues ==> after.finals == seq![trimmed(text)]
            &&& forall|more: Seq<char>|
                continues && trimmed(text) == #[trigger] (full_text + more) && trimmed(more).len() > 0
                    ==> after.finals == seq![trimmed(more)]
            &&& forall|more: Seq<char>|
                continues && trimmed(text) == #[trigger] (full_text + more) && trimmed(more).len() == 0
                    ==> after.finals.len() == 0
        }),
{
    assert forall|more: Seq<char>|
        trimmed(text) == #[trigger] (full_text + more) implies trimmed(text).skip(full_text.len() as int)
        == more by {
        assert((full_text + more).skip(full_text.len() as int) =~= more);
    }
    assert(full_text.is_prefix_of(full_text));
}

/// A response without a result, or with a whole text that is blank, gives
/// nothing and changes nothing.
pub proof fn law_empty_result_changes_nothing(
    result: AsrResultView,
    end_time: int,
    full_text: Seq<char>,
    mode: Seq<char>,
)
    requires
        result is Nothing || (result is Text && trimmed(result->Text_0).len() == 0),
    ensures
        outcome(result, end_time, full_text, mode) == (Outcome {
            partial: None,
            finals: seq![],
            end_time,
            full_text,
        }),
{
}

/// What utterances give does not depend on the mode, nor on the remembered text.
pub proof fn law_utterances_are_treated_alike_in_all_modes(
    list: Seq<UtteranceView>,
    end_time: int,
    full_text1: Seq<char>,
    mode1: Seq<char>,
    full_text2: Seq<char>,
    mode2: Seq<char>,
)
    ensures
        ({
            let one = outcome(AsrResultView::Utterances(list), end_time, full_text1, mode1);
            let two = outcome(AsrResultView::Utterances(list), end_time, full_text2, mode2);
            &&& one.partial == two.partial
            &&& one.finals == two.finals
            &&& one.end_time == two.end_time
        }),
{
}

/// A result with a list of utterances is read element by element: an utterance
/// is definite if its member `definite` is true; it ends at its member `end_time`
/// if that is a whole number of 64 bits, and else at -1; its text is its member
/// `text`, if that is a string.
pub proof fn law_utterances_are_read(tree: JsonTree, result: JsonTree, items: Seq<JsonTree>)
    requires
        tree.member("result"@) == Some(result),
        result.member("utterances"@) == Some(JsonTree::Array(items)),
    ensures
        result_of(Some(tree)) is Utterances,
        ({
            let list = result_of(Some(tree))->Utterances_0;
            &&& list.len() == items.len()
            &&& forall|i: int|
                0 <= i < items.len() ==> ((#[trigger] list[i]).definite <==> items[i].member("definite"@)
                    == Some(JsonTree::Bool(true)))
            &&& forall|i: int|
                0 <= i < items.len() ==> (#[trigger] list[i]).end_time == match items[i].member("end_time"@) {
                    Some(JsonTree::Int(n)) => if i64::MIN <= n <= i64::MAX {
                        n
                    } else {
                        -1
                    },
                    _ => -1,
                }
            &&& forall|i: int|
                0 <= i < items.len() ==> (#[trigger] list[i]).text == match items[i].member("text"@) {
                    Some(JsonTree::Str(text)) => Some(text),
                    _ => None,
                }
        }),
{
}

/// A result without a list of utterances is read as its member `text`, if that is
/// a string; a document without either, and a text that is no document, gives
/// nothing.
pub proof fn law_whole_texts_are_read(tree: JsonTree, result: JsonTree, text: Seq<char>)
    ensures
        result_of(None) is Nothing,
        tree.member("result"@) is None ==> result_of(Some(tree)) is Nothing,
        tree.member("result"@) == Some(result) && !(result.member("utterances"@) matches Some(value)
            && value is Array) ==> {
            &&& result.member("text"@) == Some(JsonTree::Str(text)) ==> result_of(Some(tree))
                == AsrResultView::Text(text)
            &&& !(result.member("text"@) matches Some(value) && value is Str) ==> result_of(
                Some(tree),
            ) is Nothing
        },
{
}

/// The view of a result has its kind, and one utterance for each, with the same
/// parts.
pub proof fn law_views_of_results(list: Vec<Utterance>, text: String)
    ensures
        AsrResult::Utterances(list)@ is Utterances,
        AsrResult::Utterances(list)@->Utterances_0.len() == list@.len(),
        forall|i: int|
            0 <= i < list@.len() ==> {
                let view = #[trigger] AsrResult::Utterances(list)@->Utterances_0[i];
                &&& view.definite == list@[i].definite
                &&& view.end_time == list@[i].end_time
                &&& view.text == optional_text(list@[i].text)
            },
        AsrResult::Text(text)@ == AsrResultView::Text(text@),
        AsrResult::Nothing@ is Nothing,
{
}

} // verus!
