use vstd::prelude::*;

use crate::prompt::SubmitSink;

verus! {

/// A submit sink that keeps every submitted text, oldest first. Hosts that
/// only need to look at the submitted instructions can use it directly;
/// it also shows that the sink contract is satisfiable.
pub struct RecordingSink {
    pub received: Vec<String>,
}

impl RecordingSink {
    pub fn new() -> (r: RecordingSink)
        ensures
            r.submissions() == Seq::<Seq<char>>::empty(),
            r.received@.len() == 0,
    {
        let r = RecordingSink { received: Vec::new() };
        proof {
            assert(r.received@.map_values(|s: String| s@) =~= Seq::<Seq<char>>::empty());
        }
        r
    }
}

impl SubmitSink for RecordingSink {
    open spec fn submissions(&self) -> Seq<Seq<char>> {
        self.received@.map_values(|s: String| s@)
    }

    fn submit(&mut self, text: String) {
        self.received.push(text);
        proof {
            assert(self.received@.map_values(|s: String| s@) =~= old(self).received@.map_values(
                |s: String| s@,
            ).push(text@));
        }
    }
}

} // verus!
