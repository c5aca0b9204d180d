//! The status keywords that headings are checked for, kept as one string.

use crate::error::{OrgError, OrgErrorView};
use crate::text::{chars_of, lemma_first_index_of_is, split_on, strs_view};
use vstd::prelude::*;

verus! {

/// Whether `c` is alphabetic or numeric in the sense of Unicode, as
/// `char::is_alphanumeric` tells it.
pub uninterp spec fn alphanumeric(c: char) -> bool;

/// `char::is_alphanumeric` depends on the character alone, so its result
/// is `alphanumeric` of it; which characters those are is not stated here.
pub assume_specification[ char::is_alphanumeric ](c: char) -> (b: bool)
    ensures
        b == alphanumeric(c),
;

/// The labels that are used where none are given.
pub open spec fn default_labels() -> Seq<char> {
    "TODO,STARTED,DONE"@
}

/// Whether a string of labels is accepted: apart from the commas between
/// the labels, each of its characters is alphanumeric.
pub open spec fn well_formed(s: Seq<char>) -> bool {
    forall|i: int| 0 <= i < s.len() ==> #[trigger] s[i] == ',' || alphanumeric(s[i])
}

/// The error that reports a string of labels that is not accepted.
pub open spec fn bad_labels(s: Seq<char>) -> OrgErrorView {
    OrgErrorView::Unexpected("unexpected characters in status labels:\n\t"@ + s)
}

/// `labels` one after another with a comma between each two.
pub open spec fn comma_joined(labels: Seq<Seq<char>>) -> Seq<char> {
    crate::text::join_with(labels, ',')
}

/// Status labels, separated by commas, in the order in which they are tried.
pub struct StatusLabels(String);

impl View for StatusLabels {
    type V = Seq<char>;

    closed spec fn view(&self) -> Seq<char> {
        self.0@
    }
}

impl StatusLabels {
    /// The labels, in order: the pieces of the string between its commas.
    pub fn iter(&self) -> (r: Vec<&str>)
        ensures
            strs_view(r@) == split_on(self@, ','),
    {
        let text = self.0.as_str();
        let chars = chars_of(text);
        let mut r: Vec<&str> = Vec::new();
        let mut start: usize = 0;
        let mut i: usize = 0;
        proof {
            assert(chars@.skip(0) =~= chars@);
            assert(strs_view(r@) + split_on(chars@, ',') =~= split_on(chars@, ','));
        }
        while i < chars.len()
            invariant
                start <= i <= chars@.len(),
                chars@ == text@,
                forall|j: int| start <= j < i ==> #[trigger] chars@[j] != ',',
                strs_view(r@) + split_on(chars@.skip(start as int), ',') == split_on(chars@, ','),
            decreases chars@.len() - i,
        {
            if chars[i] == ',' {
                let ghost before = strs_view(r@);
                let ghost rest = chars@.skip(start as int);
                proof {
                    assert forall|j: int| 0 <= j < i - start implies #[trigger] rest[j] != ',' by {
                        assert(rest[j] == chars@[start + j]);
                    }
                    lemma_first_index_of_is(rest, ',', i - start);
                    assert(rest.take(i - start) =~= text@.subrange(start as int, i as int));
                    assert(rest.skip(i - start + 1) =~= chars@.skip(i + 1));
                }
                r.push(text.substring_char(start, i));
                proof {
                    assert(strs_view(r@) =~= before + seq![rest.take(i - start)]);
                }
                start = i + 1;
            }
            i += 1;
        }
        let ghost before = strs_view(r@);
        let ghost rest = chars@.skip(start as int);
        proof {
            assert forall|j: int| 0 <= j < rest.len() implies #[trigger] rest[j] != ',' by {
                assert(rest[j] == chars@[start + j]);
            }
            lemma_first_index_of_is(rest, ',', rest.len() as int);
            assert(rest =~= text@.subrange(start as int, chars@.len() as int));
        }
        r.push(text.substring_char(start, chars.len()));
        proof {
            assert(strs_view(r@) =~= before + seq![rest]);
        }
        r
    }

    /// Reads labels from a string in which commas separate them. The
    /// string is taken as it is where all its other characters are
    /// alphanumeric, and refused otherwise.
    pub fn parse(s: &str) -> (r: Result<Self, OrgError>)
        ensures
            match r {
                Ok(labels) => well_formed(s@) && labels@ == s@,
                Err(e) => !well_formed(s@) && e@ == bad_labels(s@),
            },
    {
        let chars = chars_of(s);
        let mut i: usize = 0;
        while i < chars.len()
            invariant
                i <= chars@.len(),
                chars@ == s@,
                forall|j: int| 0 <= j < i ==> #[trigger] chars@[j] == ',' || alphanumeric(chars@[j]),
            decreases chars@.len() - i,
        {
            if chars[i] != ',' && !chars[i].is_alphanumeric() {
                let mut message = "unexpected characters in status labels:\n\t".to_owned();
                message.append(s);
                return Err(OrgError::Unexpected(message));
            }
            i += 1;
        }
        Ok(StatusLabels(s.to_owned()))
    }

    /// The labels of `labels`, in their order.
    pub fn from_labels(labels: &[&str]) -> (r: Self)
        ensures
            r@ == comma_joined(strs_view(labels@)),
    {
        let mut joined = String::new();
        let ghost all = strs_view(labels@);
        proof {
            reveal_strlit(",");
        }
        assert(","@ =~= seq![',']);
        let mut i: usize = 0;
        while i < labels.len()
            invariant
                i <= labels@.len(),
                all == strs_view(labels@),
                ","@ == seq![','],
                joined@ == comma_joined(all.take(i as int)),
            decreases labels@.len() - i,
        {
            proof {
                let t = all.take(i + 1);
                assert(t.drop_last() =~= all.take(i as int));
                assert(t.last() == labels@[i as int]@);
                if i == 0 {
                    assert(t[0] == labels@[0]@);
                }
            }
            if i > 0 {
                joined.append(",");
            }
            joined.append(labels[i]);
            i += 1;
            assert(joined@ =~= comma_joined(all.take(i as int)));
        }
        assert(all.take(i as int) =~= all);
        StatusLabels(joined)
    }
}

impl Default for StatusLabels {
    /// `TODO`, `STARTED` and `DONE`.
    fn default() -> (r: Self)
        ensures
            r@ == default_labels(),
    {
        StatusLabels("TODO,STARTED,DONE".to_owned())
    }
}

impl std::str::FromStr for StatusLabels {
    type Err = OrgError;

    /// Reads labels from a string in which commas separate them, as `parse` does.
    fn from_str(s: &str) -> (r: Result<Self, OrgError>)
        ensures
            match r {
                Ok(labels) => well_formed(s@) && labels@ == s@,
                Err(e) => !well_formed(s@) && e@ == bad_labels(s@),
            },
    {
        StatusLabels::parse(s)
    }
}

} // verus!
