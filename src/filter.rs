//! Choosing the filter program for an entry.
//!
//! Filters are asked in their configured order whether they claim an
//! extension; the first that claims it wins, and no filter after it is asked.
//! Running the programs is left to the caller: a search names the filter to
//! ask next and takes back its reply.
use vstd::prelude::*;
use vstd::utf8::{decode_utf8, valid_utf8};
use crate::mapping::{component_extension, extension_of};

verus! {

/// `str::trim` of a character sequence.
pub uninterp spec fn trimmed(s: Seq<char>) -> Seq<char>;

/// Relies on `String::from_utf8`: it fails exactly on bytes that are not
/// UTF-8, and otherwise holds the decoded characters.
#[verifier::external_body]
fn decode_text(bytes: Vec<u8>) -> (r: Option<String>)
    ensures
        r is Some <==> valid_utf8(bytes@),
        r is Some ==> r->Some_0@ == decode_utf8(bytes@),
{
    String::from_utf8(bytes).ok()
}

/// Relies on `str::trim`: the text without its leading and trailing whitespace.
#[verifier::external_body]
fn trim_text(s: &str) -> (r: String)
    ensures
        r@ == trimmed(s@),
{
    s.trim().to_owned()
}

/// What an extension query's outcome means: the program claims the extension
/// when it exited with success and wrote UTF-8 text, and the trimmed text is
/// the destination's extension.
pub open spec fn claim_of(exit_ok: bool, stdout: Seq<u8>) -> Option<Seq<char>> {
    if exit_ok && valid_utf8(stdout) {
        Some(trimmed(decode_utf8(stdout)))
    } else {
        None
    }
}

/// Reads the outcome of asking a filter program about an extension.
pub fn claim_from_output(exit_ok: bool, stdout: Vec<u8>) -> (r: Option<String>)
    ensures
        match r {
            Some(ext) => claim_of(exit_ok, stdout@) == Some(ext@),
            None => claim_of(exit_ok, stdout@).is_none(),
        },
{
    if !exit_ok {
        return None;
    }
    match decode_text(stdout) {
        Some(text) => Some(trim_text(text.as_str())),
        None => None,
    }
}

/// The first claim among the replies so far: its position and extension.
pub open spec fn first_claim(replies: Seq<Option<Seq<char>>>) -> Option<(int, Seq<char>)>
    decreases replies.len(),
{
    if replies.len() == 0 {
        None
    } else {
        match first_claim(replies.drop_last()) {
            Some(found) => Some(found),
            None => match replies.last() {
                Some(ext) => Some((replies.len() - 1, ext)),
                None => None,
            },
        }
    }
}

/// The first filter that claims an extension wins: where filter `a` claims
/// it, no filter after `a` is chosen, and the chosen one claims it.
pub proof fn lemma_first_claim_wins(replies: Seq<Option<Seq<char>>>, a: int)
    requires
        0 <= a < replies.len(),
        replies[a] is Some,
    ensures
        first_claim(replies) is Some,
        first_claim(replies)->Some_0.0 <= a,
        replies[first_claim(replies)->Some_0.0] == Some(first_claim(replies)->Some_0.1),
        forall|k: int| 0 <= k < first_claim(replies)->Some_0.0 ==> replies[k] is None,
    decreases replies.len(),
{
    if a < replies.len() - 1 {
        let init = replies.drop_last();
        lemma_first_claim_wins(init, a);
    } else {
        lemma_first_claim_shape(replies.drop_last());
    }
    lemma_first_claim_shape(replies);
}

/// What a first claim is: a claim with no claim before it; and there is none
/// only where no reply claims.
pub proof fn lemma_first_claim_shape(replies: Seq<Option<Seq<char>>>)
    ensures
        match first_claim(replies) {
            Some(found) => 0 <= found.0 < replies.len() && replies[found.0] == Some(found.1)
                && forall|k: int| 0 <= k < found.0 ==> replies[k] is None,
            None => forall|k: int| 0 <= k < replies.len() ==> replies[k] is None,
        },
    decreases replies.len(),
{
    if replies.len() > 0 {
        let init = replies.drop_last();
        lemma_first_claim_shape(init);
        assert(forall|k: int| 0 <= k < init.len() ==> init[k] == replies[k]);
    }
}

/// The filter chosen for an entry, and the extension its destination takes.
#[derive(Debug)]
pub struct FilterChoice {
    pub index: usize,
    pub extension: String,
}

/// A search for the filter of one entry.
pub struct FilterSearch {
    total: usize,
    extension: Option<String>,
    asked: usize,
    choice: Option<FilterChoice>,
    replies: Ghost<Seq<Option<Seq<char>>>>,
}

impl FilterSearch {
    /// The number of configured filters.
    pub closed spec fn total(&self) -> nat {
        self.total as nat
    }

    /// The extension that the filters are asked about; none for an entry
    /// without an extension, which no filter can claim.
    pub closed spec fn query(&self) -> Option<Seq<char>> {
        match self.extension {
            Some(e) => Some(e@),
            None => None,
        }
    }

    /// The replies received so far, in the order of the filters.
    pub closed spec fn replies(&self) -> Seq<Option<Seq<char>>> {
        self.replies@
    }

    pub closed spec fn wf(&self) -> bool {
        &&& self.asked == self.replies@.len()
        &&& self.asked <= self.total
        &&& self.extension is None ==> self.asked == 0
        &&& match first_claim(self.replies@) {
            Some(found) => self.choice is Some && self.choice->Some_0.index == found.0
                && self.choice->Some_0.extension@ == found.1 && found.0 == self.asked - 1,
            None => self.choice is None,
        }
    }

    /// Whether the search is over: the entry has no extension, a filter
    /// claimed it, or every filter was asked.
    pub open spec fn finished(&self) -> bool {
        ||| self.query() is None
        ||| first_claim(self.replies()) is Some
        ||| self.replies().len() == self.total()
    }

    /// Starts the search for an entry whose last component is `entry_name`.
    /// Only files are filtered: for a directory no filter is asked.
    pub fn start(entry_name: &str, is_file: bool, filter_count: usize) -> (r: FilterSearch)
        ensures
            r.wf(),
            r.total() == filter_count,
            r.query() == if is_file {
                extension_of(entry_name@)
            } else {
                None
            },
            r.replies() == Seq::<Option<Seq<char>>>::empty(),
    {
        let extension = if is_file {
            component_extension(entry_name)
        } else {
            None
        };
        FilterSearch {
            total: filter_count,
            extension,
            asked: 0,
            choice: None,
            replies: Ghost(Seq::empty()),
        }
    }

    /// The extension to ask the filters about.
    pub fn extension(&self) -> (r: Option<&String>)
        requires
            self.wf(),
        ensures
            match r {
                Some(e) => self.query() == Some(e@),
                None => self.query() is None,
            },
    {
        match &self.extension {
            Some(e) => Some(e),
            None => None,
        }
    }

    /// The position of the filter to ask next, or none once the search is over.
    pub fn next_query(&self) -> (r: Option<usize>)
        requires
            self.wf(),
        ensures
            self.finished() <==> r is None,
            r is Some ==> r->Some_0 == self.replies().len() && r->Some_0 < self.total(),
    {
        if self.extension.is_none() || self.choice.is_some() || self.asked == self.total {
            None
        } else {
            Some(self.asked)
        }
    }

    /// Takes the reply of the filter named by `next_query`: the extension it
    /// claims for the destination, or none where it does not claim.
    pub fn record(&mut self, reply: Option<String>)
        requires
            old(self).wf(),
            !old(self).finished(),
        ensures
            final(self).wf(),
            final(self).total() == old(self).total(),
            final(self).query() == old(self).query(),
            final(self).replies() == old(self).replies().push(
                match reply {
                    Some(e) => Some(e@),
                    None => None,
                },
            ),
    {
        let ghost prev = self.replies@;
        let ghost item = match &reply {
            Some(e) => Some(e@),
            None => None::<Seq<char>>,
        };
        let index = self.asked;
        match reply {
            Some(e) => {
                self.choice = Some(FilterChoice { index, extension: e });
            },
            None => {},
        }
        self.asked = self.asked + 1;
        self.replies = Ghost(prev.push(item));
        assert(self.replies@.drop_last() =~= prev);
    }

    /// The chosen filter, where one claimed the extension.
    pub fn choice(&self) -> (r: Option<&FilterChoice>)
        requires
            self.wf(),
        ensures
            match first_claim(self.replies()) {
                Some(found) => r is Some && r->Some_0.index == found.0
                    && r->Some_0.extension@ == found.1,
                None => r is None,
            },
    {
        match &self.choice {
            Some(c) => Some(c),
            None => None,
        }
    }
}

} // verus!
