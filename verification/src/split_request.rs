//! A request file that the nodes of a cluster share, a range of rows each.

use vstd::prelude::*;

use crate::distribution::{range_of, split_ranges};
use crate::request_specs::{RequestSpecEnum, SplitRequestFile};

verus! {

/// What to tell the nodes, and what to report.
#[derive(Debug)]
pub struct SplitPlan {
    /// The file with the range of a node, for each node.
    pub sends: Vec<SplitRequestFile>,
    /// The nodes that are reported.
    pub reported: Vec<String>,
}

/// The file of the test, with the range of node `i` of `n`.
pub open spec fn is_part(part: SplitRequestFile, file: SplitRequestFile, rows: int, n: int, i: int) -> bool {
    &&& part.file_name@ == file.file_name@
    &&& !part.open
    &&& part.size == rows
    &&& part.range_start_inclusive == range_of(rows, n, i).0
    &&& part.range_end_inclusive == range_of(rows, n, i).1
    &&& part.next_read_cursor == range_of(rows, n, i).0
}

/// Splits a request file between the nodes. `rows` is the number of its rows, where a first look
/// into the file succeeded. Nothing is sent for another source of requests, or where that look
/// failed; otherwise each node is sent its range, and is reported.
pub fn process_request(req: &RequestSpecEnum, rows: Option<usize>, nodes: &Vec<String>) -> (r:
    SplitPlan)
    requires
        req is SplitRequestFile && rows is Some ==> nodes@.len() > 0,
    ensures
        match (req, rows) {
            (RequestSpecEnum::SplitRequestFile(file), Some(rows)) => {
                &&& r.sends@.len() == nodes@.len()
                &&& forall|i: int|
                    0 <= i < r.sends@.len() ==> is_part(
                        #[trigger] r.sends@[i],
                        *file,
                        rows as int,
                        nodes@.len() as int,
                        i,
                    )
                &&& r.reported@.len() == nodes@.len()
                &&& forall|i: int|
                    0 <= i < r.reported@.len() ==> (#[trigger] r.reported@[i])@ == nodes@[i]@
            },
            _ => r.sends@.len() == 0 && r.reported@.len() == 0,
        },
{
    let mut sends: Vec<SplitRequestFile> = Vec::new();
    let mut reported: Vec<String> = Vec::new();
    if let RequestSpecEnum::SplitRequestFile(file) = req {
        if let Some(rows) = rows {
            let mut file = file.clone();
            file.size = rows;
            let splits = split_ranges(rows, nodes.len());
            let mut i: usize = 0;
            while i < nodes.len()
                invariant
                    i <= nodes@.len(),
                    nodes@.len() > 0,
                    req matches RequestSpecEnum::SplitRequestFile(before) && before.file_name@
                        == file.file_name@,
                    file.size == rows,
                    splits@.len() == nodes@.len(),
                    forall|k: int|
                        0 <= k < nodes@.len() ==> (#[trigger] splits@[k]).0 == range_of(
                            rows as int,
                            nodes@.len() as int,
                            k,
                        ).0 && splits@[k].1 == range_of(rows as int, nodes@.len() as int, k).1,
                    sends@.len() == i,
                    reported@.len() == i,
                    forall|k: int|
                        0 <= k < i ==> is_part(
                            #[trigger] sends@[k],
                            req->SplitRequestFile_0,
                            rows as int,
                            nodes@.len() as int,
                            k,
                        ),
                    forall|k: int| 0 <= k < i ==> (#[trigger] reported@[k])@ == nodes@[k]@,
                decreases nodes@.len() - i,
            {
                let range = splits[i];
                sends.push(file.clone_with_new_range(range));
                reported.push(nodes[i].clone());
                i += 1;
            }
        }
    }
    SplitPlan { sends, reported }
}

} // verus!
