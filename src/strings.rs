use vstd::prelude::*;
use vstd::utf8::valid_utf8;

verus! {

/// Relies on std::str::from_utf8: it succeeds exactly on well-formed UTF-8,
/// which rules out surrogates and overlong forms.
#[verifier::external_body]
fn is_utf8(b: &[u8]) -> (r: bool)
    ensures
        r == valid_utf8(b@),
{
    std::str::from_utf8(b).is_ok()
}

/// What an MQTT string may hold: well-formed UTF-8 without U+0000, which
/// well-formed UTF-8 can only write as a zero byte.
#[verifier::opaque]
pub open spec fn valid_mqtt_string(s: Seq<u8>) -> bool {
    &&& valid_utf8(s)
    &&& forall|i: int| 0 <= i < s.len() ==> s[i] != 0
}

/// Whether `b` may stand in an MQTT string.
pub fn is_valid_mqtt_string(b: &[u8]) -> (r: bool)
    ensures
        r == valid_mqtt_string(b@),
{
    proof {
        reveal(valid_mqtt_string);
    }
    if !is_utf8(b) {
        return false;
    }
    let mut i: usize = 0;
    while i < b.len()
        invariant
            i <= b@.len(),
            forall|j: int| 0 <= j < i ==> b@[j] != 0,
        decreases b@.len() - i,
    {
        if b[i] == 0 {
            proof {
                reveal(valid_mqtt_string);
            }
            return false;
        }
        i = i + 1;
    }
    proof {
        reveal(valid_mqtt_string);
    }
    true
}

} // verus!
