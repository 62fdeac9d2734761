//! Cosmetic preferences persisted alongside the conversations.

use vstd::prelude::*;

verus! {

/// The icon frames shown in rotation while a reply is awaited.
#[derive(Debug)]
pub struct Customization {
    pub waiting_icons: Vec<String>,
}

impl View for Customization {
    type V = Seq<Seq<char>>;

    open spec fn view(&self) -> Seq<Seq<char>> {
        self.waiting_icons@.map_values(|s: String| s@)
    }
}

impl Clone for Customization {
    fn clone(&self) -> (r: Self)
        ensures
            r@ == self@,
    {
        let mut waiting_icons: Vec<String> = Vec::new();
        let mut i: usize = 0;
        while i < self.waiting_icons.len()
            invariant
                i <= self.waiting_icons.len(),
                waiting_icons@.len() == i as int,
                forall|j: int| 0 <= j < i as int ==> (#[trigger] waiting_icons@[j])@
                    == self.waiting_icons@[j]@,
            decreases self.waiting_icons.len() - i,
        {
            waiting_icons.push(self.waiting_icons[i].clone());
            i += 1;
        }
        let r = Customization { waiting_icons };
        proof {
            assert(r@ =~= self@);
        }
        r
    }
}

impl Default for Customization {
    /// A growing trail of dots.
    fn default() -> (r: Self)
        ensures
            r@ == seq!["."@, ".."@, "..."@],
    {
        let mut waiting_icons: Vec<String> = Vec::new();
        waiting_icons.push(String::from_str("."));
        waiting_icons.push(String::from_str(".."));
        waiting_icons.push(String::from_str("..."));
        let r = Customization { waiting_icons };
        proof {
            assert(r@ =~= seq!["."@, ".."@, "..."@]);
        }
        r
    }
}

} // verus!
