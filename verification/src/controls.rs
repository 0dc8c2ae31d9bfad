//! Which camera moves the held keys ask for.

use vstd::prelude::*;
use vstd::string::*;
use crate::mesh::strings_chars;

verus! {

/// A step of the camera: along its direction, or sideways.
#[derive(Clone, Copy, Debug, PartialEq, Eq, Structural)]
pub enum Step {
    /// `w`: along the view direction.
    Forward,
    /// `s`: against the view direction.
    Backward,
    /// `d`: to the right of the view direction.
    Right,
    /// `a`: to the left of the view direction.
    Left,
}

/// The step that a held key asks for, if any.
pub open spec fn key_step(key: Seq<char>) -> Option<Step> {
    if key == seq!['w'] {
        Some(Step::Forward)
    } else if key == seq!['s'] {
        Some(Step::Backward)
    } else if key == seq!['d'] {
        Some(Step::Right)
    } else if key == seq!['a'] {
        Some(Step::Left)
    } else {
        None
    }
}

/// The steps of the held keys, in the order of the keys; other keys ask for
/// nothing.
pub open spec fn key_steps(keys: Seq<Seq<char>>) -> Seq<Step>
    decreases keys.len(),
{
    if keys.len() == 0 {
        seq![]
    } else {
        key_steps(keys.drop_last()) + match key_step(keys.last()) {
            Some(step) => seq![step],
            None => Seq::<Step>::empty(),
        }
    }
}

/// The step that one held key asks for.
pub fn step_of_key(key: &str) -> (r: Option<Step>)
    ensures
        r == key_step(key@),
{
    if key.unicode_len() != 1 {
        proof {
            assert(key@ != seq!['w'] && key@ != seq!['s'] && key@ != seq!['d'] && key@ != seq!['a']);
        }
        return None;
    }
    let c = key.get_char(0);
    proof {
        assert(key@ =~= seq![c]);
    }
    if c == 'w' {
        Some(Step::Forward)
    } else if c == 's' {
        Some(Step::Backward)
    } else if c == 'd' {
        Some(Step::Right)
    } else if c == 'a' {
        Some(Step::Left)
    } else {
        None
    }
}

/// The camera steps that the held keys ask for, in the order of the keys.
pub fn camera_steps(keys: &Vec<String>) -> (r: Vec<Step>)
    ensures
        r@ == key_steps(strings_chars(keys@)),
{
    let mut r: Vec<Step> = Vec::new();
    let mut k: usize = 0;
    proof {
        assert(strings_chars(keys@.take(0)) =~= Seq::<Seq<char>>::empty());
    }
    while k < keys.len()
        invariant
            k <= keys@.len(),
            r@ == key_steps(strings_chars(keys@.take(k as int))),
        decreases keys@.len() - k,
    {
        let step = step_of_key(keys[k].as_str());
        proof {
            let ks = strings_chars(keys@.take(k + 1));
            assert(ks.drop_last() =~= strings_chars(keys@.take(k as int)));
            assert(ks.last() == keys@[k as int]@);
        }
        match step {
            Some(s) => {
                r.push(s);
            },
            None => {},
        }
        proof {
            let ks = strings_chars(keys@.take(k + 1));
            assert(r@ =~= key_steps(ks));
        }
        k = k + 1;
    }
    proof {
        assert(keys@.take(k as int) =~= keys@);
    }
    r
}

} // verus!
