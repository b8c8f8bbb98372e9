use vstd::prelude::*;
use vstd::string::*;
use vstd::utf8::*;
use core::str::FromStr;
use crate::error::Error;
use crate::number::{is_number, is_number_text};
use crate::text::{
    lemma_trim_ends, lemma_without_char_concat, lemma_without_char_content,
    lemma_without_pair_concat, lemma_without_pair_content, remove_char, remove_pair, replace_char,
    replace_each, trim, trim_str, without_char, without_pair,
};

verus! {

/// The text of the number in a weight field: the field without the mark `N`,
/// then without the unit `kg`, then without spaces, with a point for each
/// decimal comma, and without white space at its ends.
pub open spec fn weight_text(field: Seq<char>) -> Seq<char> {
    trim(
        replace_char(
            without_char(without_pair(without_char(field, 'N'), 'k', 'g'), ' '),
            ',',
            '.',
        ),
    )
}

/// Whether a space between `before` and `after` would part the `k` of a unit
/// from its `g`. The mark `N` does not count: it is gone before the unit is
/// looked for.
pub open spec fn parts_unit(before: Seq<char>, after: Seq<char>) -> bool {
    let a = without_char(before, 'N');
    let b = without_char(after, 'N');
    a.len() > 0 && a.last() == 'k' && b.len() > 0 && b[0] == 'g'
}

/// A space anywhere in a weight field, except between the two letters of the
/// unit, leaves the text of its number as it was.
pub proof fn lemma_space_in_weight_field(before: Seq<char>, after: Seq<char>)
    requires
        !parts_unit(before, after),
    ensures
        weight_text(before + seq![' '] + after) == weight_text(before + after),
{
    let space = seq![' '];
    let a = without_char(before, 'N');
    let b = without_char(after, 'N');
    lemma_without_char_concat(before, space, 'N');
    lemma_without_char_concat(before + space, after, 'N');
    lemma_without_char_concat(before, after, 'N');
    let none = Seq::<char>::empty();
    assert(space.drop_first() =~= none);
    assert(without_char(none, 'N') =~= none);
    assert(without_char(none, ' ') =~= none);
    assert(without_pair(none, 'k', 'g') =~= none);
    assert(without_char(space, 'N') =~= space);
    assert(without_char(space, ' ') =~= Seq::<char>::empty());
    assert(without_pair(space, 'k', 'g') =~= space);
    let a_bare = without_pair(a, 'k', 'g');
    let b_bare = without_pair(b, 'k', 'g');
    lemma_without_pair_concat(a, space, 'k', 'g');
    lemma_without_pair_concat(a + space, b, 'k', 'g');
    lemma_without_pair_concat(a, b, 'k', 'g');
    lemma_without_char_concat(a_bare, space, ' ');
    lemma_without_char_concat(a_bare + space, b_bare, ' ');
    lemma_without_char_concat(a_bare, b_bare, ' ');
    assert(without_char(a_bare, ' ') + Seq::<char>::empty() =~= without_char(a_bare, ' '));
}

/// The text of a number holds no mark `N`, no space and no comma: where the
/// field had a comma, it has a point.
pub proof fn lemma_weight_text_is_clean(field: Seq<char>)
    ensures
        forall|i: int|
            0 <= i < weight_text(field).len() ==> {
                let c = #[trigger] weight_text(field)[i];
                c != 'N' && c != ' ' && c != ','
            },
{
    let unmarked = without_char(field, 'N');
    let bare = without_pair(unmarked, 'k', 'g');
    let dense = without_char(bare, ' ');
    let pointed = replace_char(dense, ',', '.');
    lemma_without_char_content(field, 'N');
    lemma_without_pair_content(unmarked, 'k', 'g');
    lemma_without_char_content(bare, ' ');
    lemma_trim_ends(pointed);
    assert forall|i: int| 0 <= i < weight_text(field).len() implies {
        let c = #[trigger] weight_text(field)[i];
        c != 'N' && c != ' ' && c != ','
    } by {
        let c = weight_text(field)[i];
        assert(pointed.contains(c));
        let j = choose|j: int| 0 <= j < pointed.len() && pointed[j] == c;
        if dense[j] != ',' {
            assert(c == dense[j]);
            assert(bare.contains(dense[j]));
            let k = choose|k: int| 0 <= k < bare.len() && bare[k] == c;
            assert(unmarked.contains(bare[k]));
            let m = choose|m: int| 0 <= m < unmarked.len() && unmarked[m] == c;
            assert(unmarked[m] != 'N');
        }
    }
}

/// The text of the number in a weight field.
pub(crate) fn number_text(field: &str) -> (text: String)
    requires
        is_ascii_chars(field@),
    ensures
        text@ == weight_text(field@),
{
    let unmarked = remove_char(field, 'N');
    let bare = remove_pair(unmarked.as_str(), 'k', 'g');
    let dense = remove_char(bare.as_str(), ' ');
    proof {
        reveal_strlit(".");
    }
    let pointed = replace_each(dense.as_str(), ',', ".");
    trim_str(pointed.as_str()).to_owned()
}

/// A net weight in kilograms, as the frame wrote it: a decimal number with a
/// point, kept as text so that no digit is lost.
#[derive(Debug, PartialEq, Eq)]
pub struct Weight {
    text: String,
}

impl View for Weight {
    type V = Seq<char>;

    closed spec fn view(&self) -> Seq<char> {
        self.text@
    }
}

impl Weight {
    #[verifier::type_invariant]
    spec fn writes_a_number(self) -> bool {
        is_number_text(self.text@)
    }

    /// Makes a weight of a text, if it writes a number.
    pub(crate) fn from_text(text: String) -> (res: Result<Weight, Error>)
        ensures
            match res {
                Ok(weight) => is_number_text(text@) && weight@ == text@,
                Err(e) => !is_number_text(text@) && e == Error::BalanceValue,
            },
    {
        if is_number(text.as_str()) {
            Ok(Weight { text })
        } else {
            Err(Error::BalanceValue)
        }
    }

    /// The number's text.
    pub fn as_str(&self) -> (s: &str)
        ensures
            s@ == self@,
            is_number_text(s@),
    {
        proof {
            use_type_invariant(self);
        }
        self.text.as_str()
    }
}

impl Clone for Weight {
    fn clone(&self) -> (res: Weight)
        ensures
            res@ == self@,
    {
        proof {
            use_type_invariant(self);
        }
        Weight { text: self.text.clone() }
    }
}

impl FromStr for Weight {
    type Err = Error;

    /// Reads a weight from the text of a number, such as `-12.5`.
    fn from_str(s: &str) -> (res: Result<Weight, Error>)
        ensures
            match res {
                Ok(weight) => is_number_text(s@) && weight@ == s@,
                Err(e) => !is_number_text(s@) && e == Error::BalanceValue,
            },
    {
        Weight::from_text(s.to_owned())
    }
}

} // verus!
