use vstd::prelude::*;

verus! {

/// Engine-wide settings fixed when the engine is set up.
#[derive(Clone, Debug, PartialEq)]
pub struct Config {
    /// The identity allowed to administer polls.
    pub admin: String,
}

/// A question with an ordered list of (label, vote count) options.
#[derive(Clone, Debug, PartialEq)]
pub struct Poll {
    pub creator: String,
    pub question: String,
    pub options: Vec<(String, u64)>,
}

/// The option a voter currently backs in one poll.
#[derive(Clone, Debug, PartialEq)]
pub struct Ballot {
    pub option: String,
}

/// Mathematical model of a poll: labels and counts are kept side by side.
pub struct PollView {
    pub creator: Seq<char>,
    pub question: Seq<char>,
    pub labels: Seq<Seq<char>>,
    pub counts: Seq<nat>,
}

impl View for Poll {
    type V = PollView;

    open spec fn view(&self) -> PollView {
        PollView {
            creator: self.creator@,
            question: self.question@,
            labels: self.options@.map_values(|o: (String, u64)| o.0@),
            counts: self.options@.map_values(|o: (String, u64)| o.1 as nat),
        }
    }
}

impl View for Ballot {
    type V = Seq<char>;

    open spec fn view(&self) -> Seq<char> {
        self.option@
    }
}

/// Position of the first option labelled `label`, or `labels.len()` when there is none.
pub open spec fn label_index(labels: Seq<Seq<char>>, label: Seq<char>) -> int
    decreases labels.len(),
{
    if labels.len() == 0 {
        0
    } else {
        let k = label_index(labels.drop_last(), label);
        if k < labels.len() - 1 {
            k
        } else if labels.last() == label {
            labels.len() - 1
        } else {
            labels.len() as int
        }
    }
}

/// Whether `label` names one of the options.
pub open spec fn has_label(labels: Seq<Seq<char>>, label: Seq<char>) -> bool {
    label_index(labels, label) < labels.len()
}

pub proof fn lemma_label_index(labels: Seq<Seq<char>>, label: Seq<char>)
    ensures
        0 <= label_index(labels, label) <= labels.len(),
        label_index(labels, label) < labels.len() ==> labels[label_index(labels, label)] == label,
        forall|j: int| 0 <= j < label_index(labels, label) ==> labels[j] != label,
    decreases labels.len(),
{
    if labels.len() > 0 {
        let prefix = labels.drop_last();
        lemma_label_index(prefix, label);
        assert forall|j: int| 0 <= j < label_index(labels, label) implies labels[j] != label by {
            if j < prefix.len() {
                assert(labels[j] == prefix[j]);
            }
        }
    }
}

/// The first index holding `label` is the label's index; no index means none.
pub proof fn lemma_label_index_at(labels: Seq<Seq<char>>, label: Seq<char>, i: int)
    requires
        0 <= i <= labels.len(),
        i < labels.len() ==> labels[i] == label,
        forall|j: int| 0 <= j < i ==> labels[j] != label,
    ensures
        label_index(labels, label) == i,
{
    lemma_label_index(labels, label);
}

impl Poll {
    /// Finds the first option labelled `label`.
    pub fn find_option(&self, label: &String) -> (r: Option<usize>)
        ensures
            r == (if has_label(self@.labels, label@) {
                Some(label_index(self@.labels, label@) as usize)
            } else {
                None::<usize>
            }),
            r matches Some(i) ==> i < self.options@.len() && self.options@[i as int].0@ == label@
                && i as int == label_index(self@.labels, label@),
    {
        let ghost labels = self@.labels;
        let n = self.options.len();
        let mut i: usize = 0;
        while i < n
            invariant
                n == self.options@.len(),
                labels == self@.labels,
                0 <= i <= n,
                forall|j: int| 0 <= j < i ==> labels[j] != label@,
            decreases n - i,
        {
            if self.options[i].0 == *label {
                proof {
                    lemma_label_index_at(labels, label@, i as int);
                }
                return Some(i);
            }
            i = i + 1;
        }
        proof {
            lemma_label_index_at(labels, label@, n as int);
        }
        None
    }

    /// Sets the count of the option at `k`, leaving every label in place.
    pub fn set_count(&mut self, k: usize, c: u64)
        requires
            k < old(self).options@.len(),
        ensures
            final(self)@ == (PollView {
                counts: old(self)@.counts.update(k as int, c as nat),
                ..old(self)@
            }),
    {
        let label = self.options[k].0.clone();
        self.options.set(k, (label, c));
        assert(self@.labels =~= old(self)@.labels);
        assert(self@.counts =~= old(self)@.counts.update(k as int, c as nat));
    }

    /// A copy of the poll with the same model.
    pub fn snapshot(&self) -> (r: Poll)
        ensures
            r@ == self@,
    {
        let n = self.options.len();
        let mut options: Vec<(String, u64)> = Vec::new();
        let mut i: usize = 0;
        while i < n
            invariant
                n == self.options@.len(),
                0 <= i <= n,
                options@.len() == i,
                forall|j: int|
                    0 <= j < i ==> options@[j].0@ == self.options@[j].0@ && options@[j].1
                        == self.options@[j].1,
            decreases n - i,
        {
            options.push((self.options[i].0.clone(), self.options[i].1));
            i = i + 1;
        }
        let r = Poll { creator: self.creator.clone(), question: self.question.clone(), options };
        assert(r@.labels =~= self@.labels);
        assert(r@.counts =~= self@.counts);
        r
    }
}

impl Ballot {
    /// A copy of the ballot with the same model.
    pub fn snapshot(&self) -> (r: Ballot)
        ensures
            r@ == self@,
    {
        Ballot { option: self.option.clone() }
    }
}

} // verus!
