//! Dog tag pictures: which file shows a given dog tag part.
use std::collections::HashMap;
use vstd::prelude::*;

verus! {

/// The dog tag table: for each part id, the index of its picture.
#[derive(Debug)]
pub struct Dogtag(pub HashMap<u64, String>);

/// The path of the picture with the given index.
pub open spec fn dogtag_path(index: Seq<char>) -> Seq<char> {
    "./wowsinfo_data/live/shared/dogtags/"@ + index + ".png"@
}

impl Dogtag {
    /// The picture of part `input`; `None` for id 0 or an unknown id.
    pub fn get(&self, input: u64) -> (r: Option<String>)
        ensures
            input == 0 ==> r is None,
            input != 0 && self.0@.contains_key(input) ==> (r matches Some(p) && p@ == dogtag_path(
                self.0@[input]@,
            )),
            input != 0 && !self.0@.contains_key(input) ==> r is None,
    {
        if input == 0 {
            None
        } else {
            match self.0.get(&input) {
                Some(tag) => {
                    let mut p = String::from_str("./wowsinfo_data/live/shared/dogtags/");
                    p.append(tag.as_str());
                    p.append(".png");
                    Some(p)
                },
                None => None,
            }
        }
    }
}

} // verus!
