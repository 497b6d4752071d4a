use vstd::prelude::*;

verus! {

/// Number of logical keys on the keypad (0x0 to 0xF).
pub const KEY_COUNT: usize = 16;

/// The 4x4 keypad held as pressed/released flags, with the host keys bound to it.
///
/// A host key is identified by the character it types; `keymap[k]` is the host key
/// bound to logical key `k`.
pub struct Keyboard {
    pub keymap: [char; 16],
    pub keys: [bool; 16],
}

/// Default binding: the left-hand 4x4 block `1234 / qwer / asdf / zxcv`
/// onto logical keys 0x0 to 0xF, row by row.
pub open spec fn default_keymap() -> Seq<char> {
    seq!['1', '2', '3', '4', 'q', 'w', 'e', 'r', 'a', 's', 'd', 'f', 'z', 'x', 'c', 'v']
}

/// Whether host key `h` is among `pressed`.
pub open spec fn host_pressed(pressed: Seq<char>, h: char) -> bool {
    exists|j: int| 0 <= j < pressed.len() && pressed[j] == h
}

/// Lowest logical key at or above `from` that is held, or `KEY_COUNT` when none is.
pub open spec fn first_held(keys: Seq<bool>, from: int) -> int
    decreases KEY_COUNT - from,
{
    if from >= KEY_COUNT {
        KEY_COUNT as int
    } else if keys[from] {
        from
    } else {
        first_held(keys, from + 1)
    }
}

pub(crate) proof fn lemma_first_held_bound(keys: Seq<bool>, from: int)
    requires
        0 <= from <= KEY_COUNT,
        keys.len() == KEY_COUNT,
    ensures
        from <= first_held(keys, from) <= KEY_COUNT,
        first_held(keys, from) < KEY_COUNT ==> keys[first_held(keys, from)],
        forall|k: int| from <= k < first_held(keys, from) ==> !keys[k],
    decreases KEY_COUNT - from,
{
    if from < KEY_COUNT && !keys[from] {
        lemma_first_held_bound(keys, from + 1);
    }
}

impl Keyboard {
    pub fn new() -> (r: Self)
        ensures
            r.keymap@ == default_keymap(),
            forall|k: int| 0 <= k < KEY_COUNT ==> !r.keys@[k],
    {
        Keyboard { keymap: Keyboard::gen_keymap(), keys: [false; 16] }
    }

    /// Releases every logical key.
    pub fn clear(&mut self)
        ensures
            final(self).keymap == old(self).keymap,
            forall|k: int| 0 <= k < KEY_COUNT ==> !final(self).keys@[k],
    {
        self.keys = [false; 16];
    }

    fn gen_keymap() -> (r: [char; 16])
        ensures
            r@ == default_keymap(),
    {
        let r: [char; 16] = [
            '1', '2', '3', '4', 'q', 'w', 'e', 'r', 'a', 's', 'd', 'f', 'z', 'x', 'c', 'v',
        ];
        assert(r@ =~= default_keymap());
        r
    }

    /// Replaces the held keys with those bound to a host key in `keys_pressed`.
    pub fn update_keys(&mut self, keys_pressed: &[char])
        ensures
            final(self).keymap == old(self).keymap,
            forall|k: int|
                0 <= k < KEY_COUNT ==> final(self).keys@[k] == host_pressed(
                    keys_pressed@,
                    old(self).keymap@[k],
                ),
    {
        self.keys = [false; 16];
        let mut j: usize = 0;
        while j < keys_pressed.len()
            invariant
                j <= keys_pressed@.len(),
                self.keymap == old(self).keymap,
                forall|k: int|
                    #![trigger self.keys@[k]]
                    0 <= k < KEY_COUNT ==> self.keys@[k] == host_pressed(
                        keys_pressed@.take(j as int),
                        self.keymap@[k],
                    ),
            decreases keys_pressed@.len() - j,
        {
            let h: char = keys_pressed[j];
            let ghost before = self.keys@;
            let mut k: usize = 0;
            while k < KEY_COUNT
                invariant
                    j < keys_pressed@.len(),
                    h == keys_pressed@[j as int],
                    k <= KEY_COUNT,
                    self.keymap == old(self).keymap,
                    forall|m: int|
                        #![trigger self.keys@[m]]
                        0 <= m < KEY_COUNT ==> self.keys@[m] == (before[m] || (m < k
                            && self.keymap@[m] == h)),
                decreases KEY_COUNT - k,
            {
                if self.keymap[k] == h {
                    self.keys[k] = true;
                }
                k = k + 1;
            }
            proof {
                let s0 = keys_pressed@.take(j as int);
                let s1 = keys_pressed@.take(j + 1);
                assert forall|m: int| 0 <= m < KEY_COUNT implies self.keys@[m] == host_pressed(
                    s1,
                    self.keymap@[m],
                ) by {
                    let c = self.keymap@[m];
                    if host_pressed(s0, c) {
                        let w = choose|w: int| 0 <= w < s0.len() && s0[w] == c;
                        assert(s1[w] == c);
                    }
                    if host_pressed(s1, c) {
                        let w = choose|w: int| 0 <= w < s1.len() && s1[w] == c;
                        if w < j {
                            assert(s0[w] == c);
                        }
                    }
                    if c == h {
                        assert(s1[j as int] == c);
                    }
                }
            }
            j = j + 1;
        }
        proof {
            assert(keys_pressed@.take(keys_pressed@.len() as int) =~= keys_pressed@);
        }
    }

    pub fn is_pressed(&self, key: u8) -> (r: bool)
        ensures
            r == (key < KEY_COUNT && self.keys@[key as int]),
    {
        key < 16 && self.keys[key as usize]
    }

    /// The lowest logical key currently held, if any.
    pub fn first_pressed(&self) -> (r: Option<u8>)
        ensures
            match r {
                Some(k) => first_held(self.keys@, 0) < KEY_COUNT && k == first_held(self.keys@, 0),
                None => first_held(self.keys@, 0) >= KEY_COUNT,
            },
    {
        proof {
            lemma_first_held_bound(self.keys@, 0);
        }
        let mut k: usize = 0;
        while k < KEY_COUNT
            invariant
                k <= KEY_COUNT,
                first_held(self.keys@, 0) == first_held(self.keys@, k as int),
            decreases KEY_COUNT - k,
        {
            if self.keys[k] {
                return Some(k as u8);
            }
            k = k + 1;
        }
        None
    }
}

} // verus!
