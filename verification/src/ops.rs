//! Ready-made merge operators. The concatenating operator doubles as the
//! conformance fixture's operator: it appends each merge operand to the
//! stored value.
use vstd::prelude::*;
use crate::MergeOperator;

verus! {

/// Appends the bytes of `s` to `v`.
fn append_bytes(v: &mut Vec<u8>, s: &[u8])
    ensures
        final(v)@ == old(v)@ + s@,
{
    let mut i: usize = 0;
    while i < s.len()
        invariant
            i <= s.len(),
            v@ == old(v)@ + s@.subrange(0, i as int),
        decreases s.len() - i,
    {
        v.push(s[i]);
        proof {
            assert(v@ =~= old(v)@ + s@.subrange(0, i + 1));
        }
        i = i + 1;
    }
    proof {
        assert(v@ =~= old(v)@ + s@);
    }
}

/// The concatenating merge operator: the new value is the existing value
/// (empty when the key is absent) followed by the operand. It never asks
/// for a deletion.
pub struct ConcatOperator;

impl MergeOperator for ConcatOperator {
    open spec fn spec_merge(
        &self,
        key: Seq<u8>,
        existing: Option<Seq<u8>>,
        operand: Seq<u8>,
    ) -> Option<Seq<u8>> {
        match existing {
            Some(e) => Some(e + operand),
            None => Some(operand),
        }
    }

    fn merge_with(&self, key: &[u8], existing: Option<&[u8]>, operand: &[u8]) -> (r: Option<
        Vec<u8>,
    >) {
        let mut v: Vec<u8> = Vec::new();
        match existing {
            Some(e) => {
                append_bytes(&mut v, e);
                append_bytes(&mut v, operand);
                proof {
                    assert(v@ =~= e@ + operand@);
                }
            },
            None => {
                append_bytes(&mut v, operand);
                proof {
                    assert(v@ =~= operand@);
                }
            },
        }
        Some(v)
    }
}

/// The deleting merge operator: it answers `None` for every merge, so each
/// merge removes the key — deletion expressed through the merge protocol.
pub struct DeleteOperator;

impl MergeOperator for DeleteOperator {
    open spec fn spec_merge(
        &self,
        key: Seq<u8>,
        existing: Option<Seq<u8>>,
        operand: Seq<u8>,
    ) -> Option<Seq<u8>> {
        None
    }

    fn merge_with(&self, key: &[u8], existing: Option<&[u8]>, operand: &[u8]) -> (r: Option<
        Vec<u8>,
    >) {
        None
    }
}

} // verus!
