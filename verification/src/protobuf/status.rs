//! Statuses with payloads.

use crate::status::StatusCodeError;
use crate::text::{copied, same_bytes};
use vstd::prelude::*;

verus! {

/// A payload of a status: the type of what it holds, and its bytes.
pub type PayloadView = (Seq<u8>, Seq<u8>);

/// A status that is an error: a code, a message, and payloads that say more, of which no two have
/// the same type.
#[derive(Debug)]
pub struct StatusError {
    code: StatusCodeError,
    message: String,
    payloads: Vec<(Vec<u8>, Vec<u8>)>,
}

/// The status of a call.
pub type Status = Result<(), StatusError>;

/// What a [`StatusError`] says.
pub struct StatusErrorView {
    /// The code.
    pub code: StatusCodeError,
    /// The message.
    pub message: Seq<char>,
    /// The payloads, in order.
    pub payloads: Seq<PayloadView>,
}

/// What a list of payloads is.
pub open spec fn payload_views(payloads: Seq<(Vec<u8>, Vec<u8>)>) -> Seq<PayloadView> {
    payloads.map_values(|p: (Vec<u8>, Vec<u8>)| (p.0@, p.1@))
}

impl View for StatusError {
    type V = StatusErrorView;

    closed spec fn view(&self) -> StatusErrorView {
        StatusErrorView {
            code: self.code,
            message: self.message@,
            payloads: payload_views(self.payloads@),
        }
    }
}

/// What a status says.
pub open spec fn rich_view(status: Status) -> Result<(), StatusErrorView> {
    match status {
        Ok(_) => Ok(()),
        Err(e) => Err(e@),
    }
}

/// Where a type stands among payloads.
pub open spec fn index_of_type(payloads: Seq<PayloadView>, type_url: Seq<u8>) -> Option<int>
    decreases payloads.len(),
{
    if payloads.len() == 0 {
        None
    } else if payloads.last().0 == type_url {
        Some(payloads.len() - 1)
    } else {
        index_of_type(payloads.drop_last(), type_url)
    }
}

/// The payloads after one was set: it takes the place of one of the same type, and comes last
/// where there is none.
pub open spec fn with_payload(
    payloads: Seq<PayloadView>,
    type_url: Seq<u8>,
    payload: Seq<u8>,
) -> Seq<PayloadView> {
    match index_of_type(payloads, type_url) {
        Some(i) => payloads.update(i, (type_url, payload)),
        None => payloads.push((type_url, payload)),
    }
}

/// The payload of a type.
pub open spec fn payload_of(payloads: Seq<PayloadView>, type_url: Seq<u8>) -> Option<Seq<u8>> {
    match index_of_type(payloads, type_url) {
        Some(i) => Some(payloads[i].1),
        None => None,
    }
}

/// Whether no type occurs twice.
pub open spec fn types_differ(payloads: Seq<PayloadView>) -> bool {
    forall|i: int, j: int|
        0 <= i < j < payloads.len() ==> (#[trigger] payloads[i]).0 != (#[trigger] payloads[j]).0
}

/// Where an index comes from.
pub proof fn lemma_index_of_type(payloads: Seq<PayloadView>, type_url: Seq<u8>)
    ensures
        match index_of_type(payloads, type_url) {
            Some(i) => 0 <= i < payloads.len() && payloads[i].0 == type_url && forall|j: int|
                i < j < payloads.len() ==> (#[trigger] payloads[j]).0 != type_url,
            None => forall|j: int|
                0 <= j < payloads.len() ==> (#[trigger] payloads[j]).0 != type_url,
        },
    decreases payloads.len(),
{
    if payloads.len() > 0 {
        let init = payloads.drop_last();
        lemma_index_of_type(init, type_url);
        assert forall|j: int| 0 <= j < payloads.len() - 1 implies #[trigger] payloads[j]
            == init[j] by {}
    }
}

/// Setting a payload keeps the types different.
pub proof fn law_types_stay_different(
    payloads: Seq<PayloadView>,
    type_url: Seq<u8>,
    payload: Seq<u8>,
)
    requires
        types_differ(payloads),
    ensures
        types_differ(with_payload(payloads, type_url, payload)),
{
    lemma_index_of_type(payloads, type_url);
}

impl StatusError {
    /// No two payloads have the same type.
    #[verifier::type_invariant]
    spec fn has_different_types(&self) -> bool {
        types_differ(payload_views(self.payloads@))
    }

    /// An error with a code and a message and without payloads.
    pub fn new(code: StatusCodeError, message: &str) -> (r: Self)
        ensures
            r@ == (StatusErrorView { code, message: message@, payloads: Seq::empty() }),
            types_differ(r@.payloads),
    {
        let r = StatusError { code, message: String::from_str(message), payloads: Vec::new() };
        assert(r@.payloads =~= Seq::<PayloadView>::empty());
        r
    }

    /// An error with a code and an owned message and without payloads.
    pub(crate) fn with_text(code: StatusCodeError, message: String) -> (r: Self)
        ensures
            r@ == (StatusErrorView { code, message: message@, payloads: Seq::empty() }),
            types_differ(r@.payloads),
    {
        let r = StatusError { code, message, payloads: Vec::new() };
        assert(r@.payloads =~= Seq::<PayloadView>::empty());
        r
    }

    /// The code.
    pub fn code(&self) -> (r: StatusCodeError)
        ensures
            r == self@.code,
    {
        self.code
    }

    /// The message.
    pub fn message(&self) -> (r: &str)
        ensures
            r@ == self@.message,
    {
        self.message.as_str()
    }

    /// Whether there are payloads.
    pub fn has_payloads(&self) -> (r: bool)
        ensures
            r == (self@.payloads.len() > 0),
    {
        self.payloads.len() > 0
    }

    /// Where a type stands among the payloads.
    fn find(&self, type_url: &[u8]) -> (r: Option<usize>)
        ensures
            match index_of_type(self@.payloads, type_url@) {
                Some(i) => r matches Some(k) && k == i,
                None => r is None,
            },
            r matches Some(k) ==> k < self.payloads@.len(),
    {
        let ghost all = self@.payloads;
        let mut i: usize = self.payloads.len();
        assert(all.take(i as int) =~= all);
        while i > 0
            invariant
                i <= self.payloads@.len(),
                all == self@.payloads,
                index_of_type(all, type_url@) == index_of_type(all.take(i as int), type_url@),
            decreases i,
        {
            i -= 1;
            proof {
                assert(all.take(i + 1).drop_last() =~= all.take(i as int));
                assert(all.take(i + 1).last() == all[i as int]);
                assert(all[i as int].0 == self.payloads@[i as int].0@);
            }
            if same_bytes(self.payloads[i].0.as_slice(), type_url) {
                return Some(i);
            }
        }
        None
    }

    /// The payload of a type.
    pub fn get_payload(&self, type_url: &[u8]) -> (r: Option<&[u8]>)
        ensures
            match payload_of(self@.payloads, type_url@) {
                Some(payload) => r matches Some(b) && b@ == payload,
                None => r is None,
            },
    {
        match self.find(type_url) {
            Some(i) => Some(self.payloads[i].1.as_slice()),
            None => None,
        }
    }

    /// Sets the payload of a type.
    pub fn set_payload(&mut self, type_url: &[u8], payload: &[u8])
        ensures
            final(self)@ == (StatusErrorView {
                payloads: with_payload(old(self)@.payloads, type_url@, payload@),
                ..old(self)@
            }),
            types_differ(final(self)@.payloads),
    {
        proof {
            use_type_invariant(&*self);
        }
        let ghost before = self@.payloads;
        let place: Option<usize> = self.find(type_url);
        let entry: (Vec<u8>, Vec<u8>) = (copied(type_url), copied(payload));
        let mut payloads: Vec<(Vec<u8>, Vec<u8>)> = Vec::new();
        std::mem::swap(&mut payloads, &mut self.payloads);
        match place {
            Some(i) => {
                payloads[i] = entry;
                assert(payload_views(payloads@) =~= before.update(i as int, (type_url@, payload@)));
            },
            None => {
                payloads.push(entry);
                assert(payload_views(payloads@) =~= before.push((type_url@, payload@)));
            },
        }
        proof {
            law_types_stay_different(before, type_url@, payload@);
        }
        self.payloads = payloads;
    }

    /// The code, the message and the payloads.
    pub fn into_parts(self) -> (r: (StatusCodeError, String, Vec<(Vec<u8>, Vec<u8>)>))
        ensures
            r.0 == self@.code,
            r.1@ == self@.message,
            payload_views(r.2@) == self@.payloads,
            types_differ(self@.payloads),
    {
        proof {
            use_type_invariant(&self);
        }
        (self.code, self.message, self.payloads)
    }
}

impl Clone for StatusError {
    fn clone(&self) -> (r: Self)
        ensures
            r@ == self@,
            types_differ(r@.payloads),
    {
        proof {
            use_type_invariant(self);
        }
        let mut payloads: Vec<(Vec<u8>, Vec<u8>)> = Vec::new();
        let mut i: usize = 0;
        while i < self.payloads.len()
            invariant
                i <= self.payloads@.len(),
                payloads@.len() == i,
                forall|j: int|
                    0 <= j < i ==> (#[trigger] payloads@[j]).0@ == self.payloads@[j].0@
                        && payloads@[j].1@ == self.payloads@[j].1@,
            decreases self.payloads@.len() - i,
        {
            payloads.push(
                (copied(self.payloads[i].0.as_slice()), copied(self.payloads[i].1.as_slice())),
            );
            i += 1;
        }
        assert(payload_views(payloads@) =~= payload_views(self.payloads@));
        StatusError { code: self.code, message: self.message.clone(), payloads }
    }
}


/// A payload that was set is found under its type, whatever was there before, and the payloads of
/// all other types are found as before.
pub proof fn law_set_payload_is_found(
    payloads: Seq<PayloadView>,
    type_url: Seq<u8>,
    payload: Seq<u8>,
    other: Seq<u8>,
)
    requires
        other != type_url,
    ensures
        payload_of(with_payload(payloads, type_url, payload), type_url) == Some(payload),
        payload_of(with_payload(payloads, type_url, payload), other) == payload_of(payloads, other),
{
    lemma_index_of_type(payloads, type_url);
    let after = with_payload(payloads, type_url, payload);
    lemma_index_of_type(after, type_url);
    match index_of_type(payloads, type_url) {
        Some(i) => {
            lemma_index_of_type(payloads, other);
            lemma_index_of_type(after, other);
            assert forall|j: int| 0 <= j < payloads.len() implies (#[trigger] after[j]).0
                == payloads[j].0 && (j != i ==> after[j] == payloads[j]) by {}
            assert(after[i] == (type_url, payload));
            let k = index_of_type(after, type_url)->Some_0;
            assert(k == i) by {
                assert(payloads[k].0 == type_url);
            }
            match (index_of_type(payloads, other), index_of_type(after, other)) {
                (Some(a), Some(b)) => {
                    assert(after[a].0 == other);
                    assert(payloads[b].0 == other);
                    assert(a == b);
                    assert(a != i);
                    assert(after[a] == payloads[a]);
                },
                (Some(a), None) => {
                    assert(after[a].0 == other);
                },
                (None, Some(b)) => {
                    assert(payloads[b].0 == other);
                },
                (None, None) => {},
            }
        },
        None => {
            lemma_index_of_type(payloads, other);
            assert(after.drop_last() =~= payloads);
        },
    }
}

/// A payload is found only where there is one of the type, and an error without payloads has none.
pub proof fn law_payload_is_among_payloads(payloads: Seq<PayloadView>, type_url: Seq<u8>)
    ensures
        payload_of(payloads, type_url) is Some <==> exists|i: int|
            0 <= i < payloads.len() && (#[trigger] payloads[i]).0 == type_url,
        payload_of(payloads, type_url) matches Some(b) ==> payloads.contains((type_url, b)),
        types_differ(payloads) ==> forall|i: int|
            0 <= i < payloads.len() && (#[trigger] payloads[i]).0 == type_url ==> payload_of(
                payloads,
                type_url,
            ) == Some(payloads[i].1),
{
    lemma_index_of_type(payloads, type_url);
    if let Some(i) = index_of_type(payloads, type_url) {
        assert(payloads[i] == (type_url, payloads[i].1));
    }
}

} // verus!
