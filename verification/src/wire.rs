//! Framing for the line-oriented roster protocol: the serialized players
//! are joined into one `[a,b,...]` line. The per-player JSON bytes are
//! produced outside the library; this module owns the framing itself.

use vstd::prelude::*;

verus! {

/// The parts joined by commas.
pub open spec fn spec_join_comma(parts: Seq<Seq<u8>>) -> Seq<u8>
    decreases parts.len(),
{
    if parts.len() == 0 {
        Seq::empty()
    } else if parts.len() == 1 {
        parts[0]
    } else {
        spec_join_comma(parts.drop_last()) + seq![44u8] + parts.last()
    }
}

/// A roster frame: `[]` when nobody is registered, otherwise the parts
/// joined by commas, bracketed, with a terminating newline.
pub open spec fn spec_frame_roster(parts: Seq<Seq<u8>>) -> Seq<u8> {
    if parts.len() == 0 {
        seq![91u8, 93u8]
    } else {
        seq![91u8] + spec_join_comma(parts) + seq![93u8, 10u8]
    }
}

/// Joins the already-serialized players into one roster line.
pub fn frame_roster(parts: &Vec<Vec<u8>>) -> (r: Vec<u8>)
    ensures
        r@ == spec_frame_roster(parts.deep_view()),
{
    let ghost dv = parts.deep_view();
    if parts.len() == 0 {
        let mut out: Vec<u8> = Vec::new();
        out.push(91u8);
        out.push(93u8);
        proof {
            assert(out@ =~= spec_frame_roster(dv));
        }
        out
    } else {
        let mut out: Vec<u8> = Vec::new();
        out.push(91u8);
        let mut i: usize = 0;
        while i < parts.len()
            invariant
                parts@.len() == dv.len(),
                dv == parts.deep_view(),
                i <= parts@.len(),
                i == 0 ==> out@ == seq![91u8],
                i >= 1 ==> out@ == seq![91u8] + spec_join_comma(dv.take(i as int)),
            decreases parts@.len() - i,
        {
            if i > 0 {
                out.push(44u8);
            }
            let part = &parts[i];
            let ghost base = out@;
            let mut j: usize = 0;
            while j < part.len()
                invariant
                    part@ == dv[i as int],
                    j <= part@.len(),
                    out@ == base + part@.take(j as int),
                decreases part@.len() - j,
            {
                out.push(part[j]);
                proof {
                    assert(out@ =~= base + part@.take(j as int + 1));
                }
                j += 1;
            }
            proof {
                assert(part@.take(part@.len() as int) =~= dv[i as int]);
                let t = dv.take(i as int + 1);
                assert(t.drop_last() =~= dv.take(i as int));
                assert(t.last() == dv[i as int]);
                if i == 0 {
                    assert(out@ =~= seq![91u8] + spec_join_comma(dv.take(1)));
                } else {
                    assert(spec_join_comma(t) == spec_join_comma(dv.take(i as int)) + seq![44u8]
                        + dv[i as int]);
                    assert(out@ =~= seq![91u8] + spec_join_comma(t));
                }
            }
            i += 1;
        }
        out.push(93u8);
        out.push(10u8);
        proof {
            assert(dv.take(dv.len() as int) =~= dv);
            assert(out@ =~= spec_frame_roster(dv));
        }
        out
    }
}

} // verus!
