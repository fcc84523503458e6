//! The classification oracle: which call targets are sources, sinks
//! or sanitizers.  The lists are gathered from `taint::...` tool
//! attributes before the analysis starts and are immutable while it
//! runs.

use vstd::prelude::*;

use vstd::string::StringExecFns;

use crate::errors::InvalidVariant;
use crate::ir::FuncId;

verus! {

/// The three roles a classified function can play.
#[derive(Clone, Copy, PartialEq, Eq, Structural, Debug)]
pub enum AttrInfoKind {
    Source,
    Sink,
    Sanitizer,
}

/// All functions of the program that carry a taint classification.
pub struct AttrInfo {
    pub sources: Vec<FuncId>,
    pub sinks: Vec<FuncId>,
    pub sanitizers: Vec<FuncId>,
}

/// The classification of a call target; the source list wins over the
/// sink list, which wins over the sanitizer list.
pub open spec fn spec_get_kind(info: AttrInfo, id: FuncId) -> Option<AttrInfoKind> {
    if info.sources@.contains(id) {
        Some(AttrInfoKind::Source)
    } else if info.sinks@.contains(id) {
        Some(AttrInfoKind::Sink)
    } else if info.sanitizers@.contains(id) {
        Some(AttrInfoKind::Sanitizer)
    } else {
        None
    }
}

#[verifier::loop_isolation(false)]
fn contains_id(v: &Vec<FuncId>, id: FuncId) -> (r: bool)
    ensures
        r == v@.contains(id),
{
    let n = v.len();
    let mut i: usize = 0;
    while i < n
        invariant
            n == v@.len(),
            i <= n,
            forall|j: int| 0 <= j < i ==> v@[j] != id,
        decreases n - i,
    {
        if v[i] == id {
            return true;
        }
        i += 1;
    }
    false
}

impl Default for AttrInfo {
    /// No function classified yet.
    fn default() -> (r: AttrInfo)
        ensures
            r.sources@ == Seq::<FuncId>::empty(),
            r.sinks@ == Seq::<FuncId>::empty(),
            r.sanitizers@ == Seq::<FuncId>::empty(),
    {
        let r = AttrInfo { sources: Vec::new(), sinks: Vec::new(), sanitizers: Vec::new() };
        proof {
            assert(r.sources@ =~= Seq::<FuncId>::empty());
            assert(r.sinks@ =~= Seq::<FuncId>::empty());
            assert(r.sanitizers@ =~= Seq::<FuncId>::empty());
        }
        r
    }
}

impl AttrInfo {
    /// Look the call target up in the three lists.
    pub fn get_kind(&self, id: FuncId) -> (r: Option<AttrInfoKind>)
        ensures
            r == spec_get_kind(*self, id),
    {
        if contains_id(&self.sources, id) {
            Some(AttrInfoKind::Source)
        } else if contains_id(&self.sinks, id) {
            Some(AttrInfoKind::Sink)
        } else if contains_id(&self.sanitizers, id) {
            Some(AttrInfoKind::Sanitizer)
        } else {
            None
        }
    }

    /// File one function under the given role.
    pub fn record(&mut self, id: FuncId, kind: AttrInfoKind)
        ensures
            final(self).sources@ == if kind is Source {
                old(self).sources@.push(id)
            } else {
                old(self).sources@
            },
            final(self).sinks@ == if kind is Sink {
                old(self).sinks@.push(id)
            } else {
                old(self).sinks@
            },
            final(self).sanitizers@ == if kind is Sanitizer {
                old(self).sanitizers@.push(id)
            } else {
                old(self).sanitizers@
            },
    {
        match kind {
            AttrInfoKind::Source => self.sources.push(id),
            AttrInfoKind::Sink => self.sinks.push(id),
            AttrInfoKind::Sanitizer => self.sanitizers.push(id),
        }
    }
}

/// Whether an attribute path is a two-segment path rooted at the
/// `taint` tool.
pub open spec fn is_taint_attr(segments: Seq<Seq<char>>) -> bool {
    segments.len() == 2 && segments[0] == "taint"@
}

/// The variant a taint attribute names, if the attribute comes from
/// the `taint` tool at all.
pub fn get_taint_attr(segments: &Vec<String>) -> (r: Option<String>)
    ensures
        r is Some <==> is_taint_attr(segments@.map_values(|s: String| s@)),
        r matches Some(name) ==> name@ == segments@[1]@,
{
    let ghost view = segments@.map_values(|s: String| s@);
    if segments.len() != 2 {
        return None;
    }
    let tag = String::from_str("taint");
    proof {
        reveal_strlit("taint");
    }
    if segments[0].eq(&tag) {
        assert(view[0] == "taint"@);
        Some(segments[1].clone())
    } else {
        assert(view[0] != "taint"@);
        None
    }
}

/// The role a taint attribute variant names: `source`, `sink` or
/// `sanitizer`; anything else is unknown.
pub fn kind_of_symbol(name: &String) -> (r: Option<AttrInfoKind>)
    ensures
        name@ == "source"@ ==> r == Some(AttrInfoKind::Source),
        name@ == "sink"@ ==> r == Some(AttrInfoKind::Sink),
        name@ == "sanitizer"@ ==> r == Some(AttrInfoKind::Sanitizer),
        name@ != "source"@ && name@ != "sink"@ && name@ != "sanitizer"@ ==> r is None,
{
    proof {
        reveal_strlit("source");
        reveal_strlit("sink");
        reveal_strlit("sanitizer");
        // the three names have different lengths, so they are distinct
        assert("source"@.len() == 6);
        assert("sink"@.len() == 4);
        assert("sanitizer"@.len() == 9);
    }
    let is_source = name.eq(&String::from_str("source"));
    let is_sink = name.eq(&String::from_str("sink"));
    let is_sanitizer = name.eq(&String::from_str("sanitizer"));
    if is_source {
        Some(AttrInfoKind::Source)
    } else if is_sink {
        Some(AttrInfoKind::Sink)
    } else if is_sanitizer {
        Some(AttrInfoKind::Sanitizer)
    } else {
        None
    }
}

/// Process one item's attribute path: classify the item under the
/// named role, ignore attributes of other tools, and reject a `taint`
/// attribute whose variant is unknown.
pub fn record_taint_attr(info: &mut AttrInfo, id: FuncId, segments: &Vec<String>) -> (r: Result<
    (),
    InvalidVariant,
>)
    ensures
        ({
            let view = segments@.map_values(|s: String| s@);
            let fin = *final(info);
            let pre = *old(info);
            if !is_taint_attr(view) {
                r is Ok && fin == pre
            } else if view[1] == "source"@ {
                r is Ok && fin.sources@ == pre.sources@.push(id) && fin.sinks@ == pre.sinks@
                    && fin.sanitizers@ == pre.sanitizers@
            } else if view[1] == "sink"@ {
                r is Ok && fin.sinks@ == pre.sinks@.push(id) && fin.sources@ == pre.sources@
                    && fin.sanitizers@ == pre.sanitizers@
            } else if view[1] == "sanitizer"@ {
                r is Ok && fin.sanitizers@ == pre.sanitizers@.push(id) && fin.sources@
                    == pre.sources@ && fin.sinks@ == pre.sinks@
            } else {
                fin == pre && (r matches Err(e) && e.attr_name@ == view[1])
            }
        }),
{
    match get_taint_attr(segments) {
        None => Ok(()),
        Some(name) => {
            match kind_of_symbol(&name) {
                Some(kind) => {
                    info.record(id, kind);
                    Ok(())
                },
                None => Err(InvalidVariant { attr_name: name }),
            }
        },
    }
}

} // verus!
