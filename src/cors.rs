use vstd::prelude::*;

verus! {

/// The bytes of `http://localhost`.
pub open spec fn localhost_prefix() -> Seq<u8> {
    seq![104u8, 116, 116, 112, 58, 47, 47, 108, 111, 99, 97, 108, 104, 111, 115, 116]
}

/// The bytes of `null`, the origin that a browser sends for a local file.
pub open spec fn null_origin() -> Seq<u8> {
    seq![110u8, 117, 108, 108]
}

/// An origin may call the service when it starts with `http://localhost` or is `null`.
pub open spec fn origin_permitted(origin: Seq<u8>) -> bool {
    (localhost_prefix().len() <= origin.len() && origin.take(localhost_prefix().len() as int)
        == localhost_prefix()) || origin == null_origin()
}

fn starts_with(s: &[u8], p: &[u8]) -> (r: bool)
    ensures
        r == (p@.len() <= s@.len() && s@.take(p@.len() as int) == p@),
{
    if p.len() > s.len() {
        return false;
    }
    let mut i: usize = 0;
    while i < p.len()
        invariant
            p@.len() <= s@.len(),
            i <= p@.len(),
            s@.take(i as int) == p@.take(i as int),
        decreases p@.len() - i,
    {
        if s[i] != p[i] {
            assert(s@.take(p@.len() as int)[i as int] != p@[i as int]);
            return false;
        }
        assert(s@.take(i + 1) == s@.take(i as int).push(s@[i as int]));
        assert(p@.take(i + 1) == p@.take(i as int).push(p@[i as int]));
        i = i + 1;
    }
    assert(p@.take(p@.len() as int) == p@);
    true
}

/// Whether a request from `origin` is let through.
pub fn origin_allowed(origin: &[u8]) -> (r: bool)
    ensures
        r == origin_permitted(origin@),
{
    let prefix: [u8; 16] = [104, 116, 116, 112, 58, 47, 47, 108, 111, 99, 97, 108, 104, 111, 115, 116];
    let null: [u8; 4] = [110, 117, 108, 108];
    assert(prefix@ == localhost_prefix());
    assert(null@ == null_origin());
    let local = starts_with(origin, prefix.as_slice());
    if local {
        return true;
    }
    let is_null = origin.len() == 4 && starts_with(origin, null.as_slice());
    proof {
        if origin@.len() == 4 {
            assert(origin@.take(4) == origin@);
        }
    }
    is_null
}

} // verus!
