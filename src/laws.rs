//! What holds of every validation: the order in which faults are reported,
//! the bounds of the validity window, and what acceptance guarantees.
use crate::certificate::CertificateView;
use crate::errors::ValidationErrorCode;
use crate::validation::{signature_fault, ChainFault};
use crate::validation::{chain_verdict, issuer_key, position_verdict, signature_verifies, verdict_from};
use vstd::prelude::*;

verus! {

/// A signature fault outranks a window fault: a certificate whose signature
/// verifies under its anchored issuer but whose window has ended fails with
/// the window fault, and one whose signature does not verify fails with the
/// signature fault whatever the reference time, even where the clock failed:
/// the primitive's rejection where a signature is present, a missing
/// signature otherwise.
pub proof fn signature_precedence(c: CertificateView, anchors: Map<Seq<u8>, Seq<u8>>, now: u64, clock: Option<u64>)
    requires
        anchors.contains_key(c.issuer),
    ensures
        signature_verifies(c, anchors[c.issuer]) && c.not_after <= now ==> chain_verdict(seq![c], anchors, Some(now))
            == Err::<(), ChainFault>(
            ChainFault::Validation(
                ValidationErrorCode::ValidityError { not_before: c.not_before, not_after: c.not_after },
            ),
        ),
        !signature_verifies(c, anchors[c.issuer]) ==> chain_verdict(seq![c], anchors, clock) == Err::<
            (),
            ChainFault,
        >(signature_fault(c)),
{
    reveal_with_fuel(verdict_from, 2);
}

/// The validity window is half-open: a certificate that verifies under its
/// anchored issuer is accepted at `not_before` and at `not_after - 1`, and
/// refused at `not_after`.
pub proof fn validity_window_bounds(c: CertificateView, anchors: Map<Seq<u8>, Seq<u8>>)
    requires
        c.not_before < c.not_after,
        anchors.contains_key(c.issuer),
        signature_verifies(c, anchors[c.issuer]),
    ensures
        chain_verdict(seq![c], anchors, Some(c.not_before)) is Ok,
        chain_verdict(seq![c], anchors, Some((c.not_after - 1) as u64)) is Ok,
        chain_verdict(seq![c], anchors, Some(c.not_after)) == Err::<(), ChainFault>(
            ChainFault::Validation(
                ValidationErrorCode::ValidityError { not_before: c.not_before, not_after: c.not_after },
            ),
        ),
{
    reveal_with_fuel(verdict_from, 2);
}

proof fn lemma_untrusted_from(
    chain: Seq<CertificateView>,
    anchors: Map<Seq<u8>, Seq<u8>>,
    now: Option<u64>,
    i: int,
)
    requires
        0 <= i < chain.len(),
        !anchors.contains_key(chain.last().issuer),
        forall|j: int| i <= j < chain.len() - 1 ==> (#[trigger] position_verdict(chain, anchors, now, j)) is Ok,
    ensures
        verdict_from(chain, anchors, now, i) == Err::<(), ChainFault>(ChainFault::Validation(ValidationErrorCode::Untrusted)),
    decreases chain.len() - i,
{
    if i + 1 < chain.len() {
        assert(position_verdict(chain, anchors, now, i) is Ok);
        lemma_untrusted_from(chain, anchors, now, i + 1);
    } else {
        assert(issuer_key(chain, anchors, i) is None);
    }
}

proof fn lemma_untrusted_never_accepted(
    chain: Seq<CertificateView>,
    anchors: Map<Seq<u8>, Seq<u8>>,
    now: Option<u64>,
    i: int,
)
    requires
        0 <= i < chain.len(),
        !anchors.contains_key(chain.last().issuer),
    ensures
        verdict_from(chain, anchors, now, i) is Err,
    decreases chain.len() - i,
{
    if i + 1 < chain.len() {
        lemma_untrusted_never_accepted(chain, anchors, now, i + 1);
    } else {
        assert(issuer_key(chain, anchors, i) is None);
    }
}

/// A chain whose last issuer is not a trust anchor is never accepted; where
/// every earlier link verifies and is current, it fails as untrusted.
pub proof fn untrusted_termination(chain: Seq<CertificateView>, anchors: Map<Seq<u8>, Seq<u8>>, now: Option<u64>)
    requires
        chain.len() > 0,
        !anchors.contains_key(chain.last().issuer),
    ensures
        chain_verdict(chain, anchors, now) is Err,
        (forall|j: int| 0 <= j < chain.len() - 1 ==> (#[trigger] position_verdict(chain, anchors, now, j)) is Ok)
            ==> chain_verdict(chain, anchors, now) == Err::<(), ChainFault>(ChainFault::Validation(ValidationErrorCode::Untrusted)),
{
    lemma_untrusted_never_accepted(chain, anchors, now, 0);
    if forall|j: int| 0 <= j < chain.len() - 1 ==> (#[trigger] position_verdict(chain, anchors, now, j)) is Ok {
        lemma_untrusted_from(chain, anchors, now, 0);
    }
}

/// Validation stops at the first faulty link: in a chain of three whose leaf
/// passes and whose middle certificate does not verify under the root's key,
/// that link's signature fault is reported. Nothing is asked of the root but its
/// key: its own window and anchoring are never examined.
pub proof fn chain_short_circuit(
    leaf: CertificateView,
    middle: CertificateView,
    root: CertificateView,
    anchors: Map<Seq<u8>, Seq<u8>>,
    now: Option<u64>,
)
    requires
        position_verdict(seq![leaf, middle, root], anchors, now, 0) is Ok,
        !signature_verifies(middle, root.subject_public_key),
    ensures
        chain_verdict(seq![leaf, middle, root], anchors, now) == Err::<(), ChainFault>(signature_fault(middle)),
{
    reveal_with_fuel(verdict_from, 3);
    assert(issuer_key(seq![leaf, middle, root], anchors, 1) == Some(root.subject_public_key));
}

proof fn lemma_accepted_from(chain: Seq<CertificateView>, anchors: Map<Seq<u8>, Seq<u8>>, now: u64, i: int)
    requires
        0 <= i <= chain.len(),
        verdict_from(chain, anchors, Some(now), i) is Ok,
    ensures
        forall|j: int| i <= j < chain.len() ==> (#[trigger] position_verdict(chain, anchors, Some(now), j)) is Ok,
    decreases chain.len() - i,
{
    if i < chain.len() {
        lemma_accepted_from(chain, anchors, now, i + 1);
    }
}

/// An accepted chain is current and fully signed: every certificate's window
/// holds `now`, every signature verifies under the key of the next
/// certificate, and the last one verifies under the key that the anchors
/// trust for its issuer.
pub proof fn accepted_chain_is_sound(chain: Seq<CertificateView>, anchors: Map<Seq<u8>, Seq<u8>>, now: u64)
    requires
        chain_verdict(chain, anchors, Some(now)) is Ok,
    ensures
        chain.len() > 0,
        anchors.contains_key(chain.last().issuer),
        signature_verifies(chain.last(), anchors[chain.last().issuer]),
        forall|j: int| 0 <= j < chain.len() ==> (#[trigger] chain[j]).is_current_at(now),
        forall|j: int| 0 <= j < chain.len() - 1 ==> signature_verifies(#[trigger] chain[j], chain[j + 1].subject_public_key),
{
    lemma_accepted_from(chain, anchors, now, 0);
    assert forall|j: int| 0 <= j < chain.len() implies (#[trigger] chain[j]).is_current_at(now) by {
        assert(position_verdict(chain, anchors, Some(now), j) is Ok);
    }
    assert forall|j: int| 0 <= j < chain.len() - 1 implies signature_verifies(
        #[trigger] chain[j],
        chain[j + 1].subject_public_key,
    ) by {
        assert(position_verdict(chain, anchors, Some(now), j) is Ok);
    }
    assert(position_verdict(chain, anchors, Some(now), chain.len() - 1) is Ok);
}

} // verus!
