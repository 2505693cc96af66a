//! RTCP compound packets, read just far enough to spot a Picture Loss
//! Indication (PLI): packet type 206 with feedback format 1.

use vstd::prelude::*;

verus! {

/// Whether a well-formed prefix of the compound packet holds a PLI.
/// Each packet starts with a 4-byte header: 2 version bits (must be 2), a
/// padding bit, 5 format bits, the packet type, and a big-endian length
/// in 32-bit words minus one.  Scanning stops at a malformed header.
pub open spec fn spec_rtcp_has_pli(s: Seq<u8>) -> bool
    decreases s.len(),
{
    if s.len() < 4 {
        false
    } else if s[0] / 64 != 2 {
        false
    } else {
        let chunk = 4 * ((s[2] as int) * 256 + (s[3] as int) + 1);
        if s.len() < chunk {
            false
        } else {
            (s[1] == 206 && s[0] % 32 == 1) || spec_rtcp_has_pli(s.skip(chunk))
        }
    }
}

/// Scan an RTCP compound packet for a Picture Loss Indication.
pub fn rtcp_has_pli(buf: &[u8]) -> (r: bool)
    ensures
        r == spec_rtcp_has_pli(buf@),
{
    let n = buf.len();
    let mut off: usize = 0;
    proof {
        assert(buf@.skip(0) =~= buf@);
    }
    while off < n
        invariant
            n == buf@.len(),
            0 <= off <= n,
            spec_rtcp_has_pli(buf@) == spec_rtcp_has_pli(buf@.skip(off as int)),
        decreases n - off,
    {
        proof {
            assert(forall|k: int|
                0 <= k < buf@.skip(off as int).len() ==> #[trigger] buf@.skip(off as int)[k]
                    == buf@[k + off]);
        }
        if n - off < 4 {
            return false;
        }
        let b0 = buf[off];
        if b0 / 64 != 2 {
            return false;
        }
        let words = (buf[off + 2] as usize) * 256 + (buf[off + 3] as usize);
        let chunk = 4 * (words + 1);
        if n - off < chunk {
            return false;
        }
        if buf[off + 1] == 206 && b0 % 32 == 1 {
            return true;
        }
        proof {
            assert(buf@.skip(off as int).skip(chunk as int) =~= buf@.skip(off as int + chunk));
        }
        off = off + chunk;
    }
    false
}

} // verus!
