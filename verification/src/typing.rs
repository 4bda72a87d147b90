//! The boxes that one types into: what they suggest, and what they set
//! off.
//!
//! Every keystroke has a number. A suggestion that was asked for by an
//! earlier keystroke comes too late and is dropped.

use crate::articles::{article_key, normalize_article, ArticleSuggestion};
use crate::filter::{open_filter, Filter, FilterView};
use crate::panel::{apply_facet_suggestion, suggestion_applied};
use crate::suggest::FacetSuggestion;
use crate::text::{chars_of, opt_text, trim, trimmed};
use vstd::prelude::*;

verus! {

// ---------------------------------------------------------------------
// Article numbers
// ---------------------------------------------------------------------

/// The box for article numbers.
#[derive(Debug)]
pub struct ArticleBar {
    /// What is typed.
    pub draft: String,
    /// What is suggested.
    pub suggestions: Vec<ArticleSuggestion>,
    /// Whether the suggestions are shown.
    pub open: bool,
    /// Number of the last keystroke.
    pub generation: u64,
    /// The article number that is looked up.
    pub article: Option<String>,
}

/// The text without the white space around it, where that leaves
/// anything.
pub open spec fn unless_blank(s: Seq<char>) -> Option<Seq<char>> {
    if trim(s).len() > 0 {
        Some(trim(s))
    } else {
        None
    }
}

/// The text without the white space around it, where that leaves
/// anything.
fn if_not_blank(s: &str) -> (r: Option<String>)
    ensures
        opt_text(r) == unless_blank(s@),
{
    let t: String = trimmed(s);
    if t.as_str().is_empty() {
        None
    } else {
        Some(t)
    }
}

/// Whether a typed article number is long enough to be suggested for:
/// its key has three characters.
pub open spec fn long_enough(s: Seq<char>) -> bool {
    article_key(s).len() >= 3
}

impl ArticleBar {
    /// An empty box.
    pub fn new() -> (r: ArticleBar)
        ensures
            r.draft@.len() == 0,
            r.suggestions@.len() == 0,
            !r.open,
            r.generation == 0,
            r.article is None,
    {
        ArticleBar {
            draft: String::new(),
            suggestions: Vec::new(),
            open: false,
            generation: 0,
            article: None,
        }
    }

    /// Something is typed. Gives the number of the keystroke where
    /// suggestions are to be asked for.
    pub fn on_input(&mut self, typed: String) -> (r: Option<u64>)
        requires
            old(self).generation < u64::MAX,
        ensures
            final(self).draft@ == typed@,
            final(self).generation == old(self).generation + 1,
            final(self).article == old(self).article,
            r is Some <==> long_enough(typed@),
            r matches Some(g) ==> g == final(self).generation
                && final(self).suggestions == old(self).suggestions
                && final(self).open == old(self).open,
            r is None ==> final(self).suggestions@.len() == 0 && !final(self).open,
    {
        self.generation = self.generation + 1;
        let key: String = normalize_article(typed.as_str());
        let n: usize = chars_of(key.as_str()).len();
        self.draft = typed;
        if n < 3 {
            self.suggestions = Vec::new();
            self.open = false;
            return None;
        }
        Some(self.generation)
    }

    /// Whether a keystroke is still the last one.
    pub fn is_current(&self, generation: u64) -> (r: bool)
        ensures
            r == (generation == self.generation),
    {
        generation == self.generation
    }

    /// Suggestions have come, or have failed to come. Those of an earlier
    /// keystroke are dropped.
    pub fn on_answer(&mut self, generation: u64, answer: Option<Vec<ArticleSuggestion>>)
        ensures
            generation != old(self).generation ==> *final(self) == *old(self),
            generation == old(self).generation ==> final(self).draft == old(self).draft
                && final(self).generation == old(self).generation
                && final(self).article == old(self).article
                && (
            match answer {
                Some(list) => final(self).suggestions == list && final(self).open == (list@.len()
                    > 0),
                None => final(self).suggestions@.len() == 0 && !final(self).open,
            }),
    {
        if generation != self.generation {
            return;
        }
        match answer {
            Some(list) => {
                self.open = list.len() > 0;
                self.suggestions = list;
            },
            None => {
                self.suggestions = Vec::new();
                self.open = false;
            },
        }
    }

    /// Looks up what is typed; nothing where it is blank.
    pub fn submit(&mut self)
        ensures
            opt_text(final(self).article) == unless_blank(old(self).draft@),
            !final(self).open,
            final(self).draft == old(self).draft,
            final(self).suggestions == old(self).suggestions,
            final(self).generation == old(self).generation,
    {
        self.article = if_not_blank(self.draft.as_str());
        self.open = false;
    }

    /// A suggestion is picked: it is typed in and looked up.
    pub fn pick(&mut self, article: String)
        ensures
            final(self).draft@ == article@,
            opt_text(final(self).article) == unless_blank(article@),
            !final(self).open,
            final(self).suggestions == old(self).suggestions,
            final(self).generation == old(self).generation,
    {
        self.draft = article;
        self.submit();
    }

    /// The suggestions are closed.
    pub fn close(&mut self)
        ensures
            *final(self) == (ArticleBar { open: false, ..*old(self) }),
    {
        self.open = false;
    }

    /// The box is entered again: suggestions that are there are shown.
    pub fn on_focus(&mut self)
        ensures
            *final(self) == (ArticleBar {
                open: old(self).open || old(self).suggestions@.len() > 0,
                ..*old(self)
            }),
    {
        if self.suggestions.len() > 0 {
            self.open = true;
        }
    }

    /// Whether suggestions are to be seen.
    pub fn shows_suggestions(&self) -> (r: bool)
        ensures
            r == (self.open && self.suggestions@.len() > 0),
    {
        self.open && self.suggestions.len() > 0
    }
}

// ---------------------------------------------------------------------
// Search
// ---------------------------------------------------------------------

/// How long the search for text stays enabled (s).
pub const ARMED_SECONDS: u32 = 10;

/// The box for searches, and the switch for the search for text.
#[derive(Debug)]
pub struct SearchBar {
    /// What is typed.
    pub draft: String,
    /// What is suggested.
    pub suggestions: Vec<FacetSuggestion>,
    /// Whether the suggestions are shown.
    pub open: bool,
    /// Number of the last keystroke.
    pub generation: u64,
    /// Whether the search for text is enabled.
    pub armed: bool,
    /// Seconds until it is disabled.
    pub seconds: u32,
}

/// Whether what is typed is long enough to be suggested for: two
/// characters without the white space around it.
pub open spec fn worth_suggesting(s: Seq<char>) -> bool {
    trim(s).len() >= 2
}

impl SearchBar {
    /// An empty box.
    pub fn new() -> (r: SearchBar)
        ensures
            r.draft@.len() == 0,
            r.suggestions@.len() == 0,
            !r.open,
            r.generation == 0,
            !r.armed,
            r.seconds == 0,
    {
        SearchBar {
            draft: String::new(),
            suggestions: Vec::new(),
            open: false,
            generation: 0,
            armed: false,
            seconds: 0,
        }
    }

    /// Something is typed. Gives the number of the keystroke where
    /// suggestions are to be asked for. The filter stays as it is.
    pub fn on_input(&mut self, typed: String) -> (r: Option<u64>)
        requires
            old(self).generation < u64::MAX,
        ensures
            final(self).draft@ == typed@,
            final(self).generation == old(self).generation + 1,
            final(self).armed == old(self).armed,
            final(self).seconds == old(self).seconds,
            r is Some <==> worth_suggesting(typed@),
            r matches Some(g) ==> g == final(self).generation
                && final(self).suggestions == old(self).suggestions
                && final(self).open == old(self).open,
            r is None ==> final(self).suggestions@.len() == 0 && !final(self).open,
    {
        self.generation = self.generation + 1;
        let t: String = trimmed(typed.as_str());
        let n: usize = chars_of(t.as_str()).len();
        self.draft = typed;
        if n < 2 {
            self.suggestions = Vec::new();
            self.open = false;
            return None;
        }
        Some(self.generation)
    }

    /// Whether a keystroke is still the last one.
    pub fn is_current(&self, generation: u64) -> (r: bool)
        ensures
            r == (generation == self.generation),
    {
        generation == self.generation
    }

    /// Suggestions have come, or have failed to come. Those of an earlier
    /// keystroke are dropped.
    pub fn on_answer(&mut self, generation: u64, answer: Option<Vec<FacetSuggestion>>)
        ensures
            generation != old(self).generation ==> *final(self) == *old(self),
            generation == old(self).generation ==> final(self).draft == old(self).draft
                && final(self).generation == old(self).generation
                && final(self).armed == old(self).armed
                && final(self).seconds == old(self).seconds
                && (match answer {
                Some(list) => final(self).suggestions == list && final(self).open == (list@.len()
                    > 0),
                None => final(self).suggestions@.len() == 0 && !final(self).open,
            }),
    {
        if generation != self.generation {
            return;
        }
        match answer {
            Some(list) => {
                self.open = list.len() > 0;
                self.suggestions = list;
            },
            None => {
                self.suggestions = Vec::new();
                self.open = false;
            },
        }
    }

    /// A suggestion is picked: the filter takes it up and drops its text,
    /// and the box is emptied.
    pub fn pick(&mut self, f: &mut Filter, s: &FacetSuggestion)
        ensures
            final(f)@ == (FilterView { text: None, ..suggestion_applied(old(f)@, *s) }),
            final(self).draft@.len() == 0,
            final(self).suggestions@.len() == 0,
            !final(self).open,
            final(self).generation == old(self).generation,
            final(self).armed == old(self).armed,
            final(self).seconds == old(self).seconds,
    {
        apply_facet_suggestion(f, s);
        f.text = None;
        self.empty();
    }

    /// Empties the box.
    fn empty(&mut self)
        ensures
            final(self).draft@.len() == 0,
            final(self).suggestions@.len() == 0,
            !final(self).open,
            final(self).generation == old(self).generation,
            final(self).armed == old(self).armed,
            final(self).seconds == old(self).seconds,
    {
        self.draft = String::new();
        self.suggestions = Vec::new();
        self.open = false;
    }

    /// Enter: what is typed becomes the text of the filter, if the search
    /// for text is enabled. It then stays enabled for its full time.
    pub fn on_enter(&mut self, f: &mut Filter)
        ensures
            !old(self).armed ==> final(f)@ == old(f)@ && *final(self) == *old(self),
            old(self).armed ==> final(f)@ == (FilterView {
                text: unless_blank(old(self).draft@),
                ..old(f)@
            }) && *final(self) == (SearchBar {
                seconds: ARMED_SECONDS,
                open: false,
                ..*old(self)
            }),
    {
        if !self.armed {
            return;
        }
        f.text = if_not_blank(self.draft.as_str());
        self.seconds = ARMED_SECONDS;
        self.open = false;
    }

    /// The suggestions are closed.
    pub fn close(&mut self)
        ensures
            *final(self) == (SearchBar { open: false, ..*old(self) }),
    {
        self.open = false;
    }

    /// The box is entered again: suggestions that are there are shown.
    pub fn on_focus(&mut self)
        ensures
            *final(self) == (SearchBar {
                open: old(self).open || old(self).suggestions@.len() > 0,
                ..*old(self)
            }),
    {
        if self.suggestions.len() > 0 {
            self.open = true;
        }
    }

    /// Whether suggestions are to be seen.
    pub fn shows_suggestions(&self) -> (r: bool)
        ensures
            r == (self.open && self.suggestions@.len() > 0),
    {
        self.open && self.suggestions.len() > 0
    }

    /// Everything is reset: the filter demands nothing, the box is empty.
    pub fn reset(&mut self, f: &mut Filter)
        ensures
            final(f)@ == open_filter(),
            final(self).draft@.len() == 0,
            final(self).suggestions@.len() == 0,
            !final(self).open,
            final(self).generation == old(self).generation,
            final(self).armed == old(self).armed,
            final(self).seconds == old(self).seconds,
    {
        *f = Filter::default();
        self.empty();
    }

    /// The switch is turned. Turning it off also drops the text of the
    /// filter.
    pub fn on_switch(&mut self, f: &mut Filter, on: bool)
        ensures
            *final(self) == (SearchBar {
                armed: on,
                seconds: if on {
                    ARMED_SECONDS
                } else {
                    0
                },
                ..*old(self)
            }),
            final(f)@ == (if on {
                old(f)@
            } else {
                FilterView { text: None, ..old(f)@ }
            }),
    {
        self.armed = on;
        if on {
            self.seconds = ARMED_SECONDS;
        } else {
            self.seconds = 0;
            f.text = None;
        }
    }

    /// A second passes. Whether the countdown goes on: it ends when the
    /// search for text is disabled, by the switch or by the last second.
    pub fn on_second(&mut self) -> (goes_on: bool)
        ensures
            goes_on == (old(self).armed && old(self).seconds > 1),
            *final(self) == after_second(*old(self)),
    {
        if !self.armed {
            return false;
        }
        if self.seconds <= 1 {
            self.armed = false;
            self.seconds = 0;
            return false;
        }
        self.seconds = self.seconds - 1;
        true
    }

    /// What the box says while it is empty.
    pub fn placeholder(&self) -> (r: &'static str)
        ensures
            r@ == (if self.armed {
                "Press Enter \u{2014} full-text scan over 270k docs"@
            } else {
                "Search luminaires (e.g. IP65, ERCO, Office)\u{2026}"@
            }),
    {
        if self.armed {
            "Press Enter \u{2014} full-text scan over 270k docs"
        } else {
            "Search luminaires (e.g. IP65, ERCO, Office)\u{2026}"
        }
    }
}

/// The box a second later.
pub open spec fn after_second(b: SearchBar) -> SearchBar {
    if !b.armed {
        b
    } else if b.seconds <= 1 {
        SearchBar { armed: false, seconds: 0, ..b }
    } else {
        SearchBar { seconds: (b.seconds - 1) as u32, ..b }
    }
}

/// A box asks for suggestions exactly where there can be any: from three
/// letters and digits of an article number on, and from two characters of
/// a text on, without the white space around it.
pub proof fn boxes_ask_where_there_is_an_answer(s: Seq<char>)
    ensures
        long_enough(s) <==> article_key(s).len() > 2,
        worth_suggesting(s) <==> trim(s).len() > 1,
        trim(s).len() == 0 ==> unless_blank(s) is None,
        trim(s).len() > 0 ==> unless_blank(s) == Some(trim(s)),
{
}

/// The box `n` seconds later, where nothing is done to it.
pub open spec fn after_seconds(b: SearchBar, n: nat) -> SearchBar
    decreases n,
{
    if n == 0 {
        b
    } else {
        after_second(after_seconds(b, (n - 1) as nat))
    }
}

/// The search for text is disabled after as many seconds as were on the
/// countdown, and not before.
pub proof fn countdown_takes_its_time(b: SearchBar, n: nat)
    requires
        b.armed,
        b.seconds > 0,
    ensures
        n < b.seconds ==> after_seconds(b, n) == (SearchBar {
            seconds: (b.seconds - n) as u32,
            ..b
        }),
        n >= b.seconds ==> after_seconds(b, n) == (SearchBar { armed: false, seconds: 0, ..b }),
    decreases n,
{
    if n > 0 {
        countdown_takes_its_time(b, (n - 1) as nat);
    }
}

} // verus!
