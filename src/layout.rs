use vstd::prelude::*;
use crate::text::{
    chars_of, find_char, index_of, join, lemma_index_of, parse_usize, parse_usize_spec, string_of_range,
    ParseIntError,
};

verus! {

/// A module's slice of the shared memory region.
#[derive(Debug, PartialEq, Eq)]
pub struct Region {
    pub name: String,
    pub offset: usize,
    pub size: usize,
}

/// The slices of the shared memory region, one after another from offset 0.
#[derive(Debug, PartialEq, Eq)]
pub struct MemoryLayout {
    pub regions: Vec<Region>,
    pub total: usize,
}

/// The sum of the region sizes.
pub open spec fn sizes_total(regions: Seq<Region>) -> int
    decreases regions.len(),
{
    if regions.len() == 0 {
        0
    } else {
        sizes_total(regions.drop_last()) + regions.last().size as int
    }
}

/// The index of the last region called `name`, or -1.
pub open spec fn last_named(regions: Seq<Region>, name: Seq<char>) -> int
    decreases regions.len(),
{
    if regions.len() == 0 {
        -1
    } else if regions.last().name@ == name {
        regions.len() - 1
    } else {
        last_named(regions.drop_last(), name)
    }
}

impl MemoryLayout {
    /// Each region starts where the one before it ends; `total` is where the last ends.
    pub open spec fn wf(&self) -> bool {
        &&& self.total == sizes_total(self.regions@)
        &&& forall|i: int|
            0 <= i < self.regions@.len() ==> (#[trigger] self.regions@[i]).offset == sizes_total(
                self.regions@.subrange(0, i),
            )
    }

    /// No regions.
    pub fn new() -> (r: MemoryLayout)
        ensures
            r.wf(),
            r.regions@.len() == 0,
            r.total == 0,
    {
        MemoryLayout { regions: Vec::new(), total: 0 }
    }

    /// Adds a region of `size` bytes after the last one; fails, changing
    /// nothing, when the region would end past `usize::MAX`.
    pub fn push_region(&mut self, name: String, size: usize) -> (r: bool)
        requires
            old(self).wf(),
        ensures
            final(self).wf(),
            r == (old(self).total + size <= usize::MAX),
            r ==> final(self).regions@.len() == old(self).regions@.len() + 1
                && final(self).regions@.drop_last() == old(self).regions@
                && final(self).regions@.last().name == name
                && final(self).regions@.last().offset == old(self).total
                && final(self).regions@.last().size == size
                && final(self).total == old(self).total + size,
            !r ==> *final(self) == *old(self),
    {
        if size > usize::MAX - self.total {
            return false;
        }
        let ghost before = self.regions@;
        let offset = self.total;
        self.regions.push(Region { name, offset, size });
        self.total = offset + size;
        assert(self.regions@.drop_last() =~= before);
        assert forall|i: int| 0 <= i < self.regions@.len() implies (#[trigger] self.regions@[i]).offset
            == sizes_total(self.regions@.subrange(0, i)) by {
            if i < before.len() {
                assert(self.regions@.subrange(0, i) =~= before.subrange(0, i));
            } else {
                assert(self.regions@.subrange(0, i) =~= before);
            }
        }
        true
    }

    /// Where the slice of module `name` starts; the last region of that name
    /// counts.
    pub fn get_offset(&self, name: &str) -> (r: Option<usize>)
        ensures
            r is None <==> last_named(self.regions@, name@) == -1,
            r matches Some(o) ==> o == self.regions@[last_named(self.regions@, name@)].offset,
    {
        match self.find(name) {
            Some(i) => Some(self.regions[i].offset),
            None => None,
        }
    }

    /// The index of the last region called `name`.
    pub fn find(&self, name: &str) -> (r: Option<usize>)
        ensures
            r is None <==> last_named(self.regions@, name@) == -1,
            r matches Some(i) ==> i == last_named(self.regions@, name@) && i < self.regions@.len(),
    {
        let key = String::from_str(name);
        let mut i: usize = self.regions.len();
        assert(self.regions@.subrange(0, i as int) =~= self.regions@);
        while i > 0
            invariant
                i <= self.regions@.len(),
                key@ == name@,
                last_named(self.regions@, name@) == last_named(self.regions@.subrange(0, i as int), name@),
            decreases i,
        {
            let ghost pre = self.regions@.subrange(0, i as int);
            assert(pre.drop_last() =~= self.regions@.subrange(0, i - 1));
            assert(pre.last() == self.regions@[i - 1]);
            if self.regions[i - 1].name == key {
                assert(self.regions@[i - 1].name@ == name@);
                assert(pre.len() == i);
                assert(last_named(pre, name@) == i - 1);
                return Some(i - 1);
            }
            i = i - 1;
        }
        assert(self.regions@.subrange(0, 0) =~= Seq::<Region>::empty());
        None
    }
}

proof fn lemma_last_named_range(regions: Seq<Region>, name: Seq<char>)
    ensures
        -1 <= last_named(regions, name) < regions.len(),
    decreases regions.len(),
{
    if regions.len() > 0 {
        lemma_last_named_range(regions.drop_last(), name);
    }
}

/// The module name of a `name:size` entry.
pub open spec fn entry_name(s: Seq<char>) -> Seq<char> {
    s.subrange(0, index_of(s, ':'))
}

/// The size text of a `name:size` entry.
pub open spec fn entry_size_text(s: Seq<char>) -> Seq<char> {
    s.subrange(index_of(s, ':') + 1, s.len() as int)
}

/// The description of a failure to read a size.
pub open spec fn parse_error_text(e: ParseIntError) -> Seq<char> {
    match e {
        ParseIntError::Empty => "cannot parse integer from empty string"@,
        ParseIntError::InvalidDigit => "invalid digit found in string"@,
        ParseIntError::PosOverflow => "number too large to fit in target type"@,
    }
}

/// What reports the size text `text` that could not be used.
pub open spec fn size_error_message(e: ParseIntError, text: Seq<char>) -> Seq<char> {
    parse_error_text(e) + " for usize "@ + text
}

/// Reads one `name:size` entry: `None` for an entry without `:`; the name and
/// size; or the message of a size that is not a `usize` in decimal.
pub fn parse_module_entry(entry: &str) -> (r: Option<Result<(String, usize), String>>)
    ensures
        r is None <==> index_of(entry@, ':') == entry@.len(),
        r matches Some(Ok((n, v))) ==> n@ == entry_name(entry@)
            && parse_usize_spec(entry_size_text(entry@)) == Ok::<usize, ParseIntError>(v),
        r matches Some(Err(m)) ==> parse_usize_spec(entry_size_text(entry@)) is Err
            && m@ == size_error_message(parse_usize_spec(entry_size_text(entry@))->Err_0, entry_size_text(entry@)),
{
    let cs = chars_of(entry);
    let n = cs.len();
    let at = find_char(&cs, ':');
    proof {
        lemma_index_of(entry@, ':');
    }
    if at == n {
        return None;
    }
    let name = string_of_range(&cs, 0, at);
    let text = string_of_range(&cs, at + 1, n);
    let digits = vstd::slice::slice_subrange(cs.as_slice(), at + 1, n);
    match parse_usize(digits) {
        Ok(v) => Some(Ok((name, v))),
        Err(e) => {
            let a = join(e.message(), " for usize ");
            let m = join(a.as_str(), text.as_str());
            Some(Err(m))
        },
    }
}

/// The sum of the accepted sizes.
pub open spec fn accepted_total(acc: Seq<(Seq<char>, usize)>) -> int
    decreases acc.len(),
{
    if acc.len() == 0 {
        0
    } else {
        accepted_total(acc.drop_last()) + acc.last().1 as int
    }
}

/// What a list of `name:size` entries describes, entry by entry: the accepted
/// `(name, size)` pairs in order, and the message of each entry whose size
/// could not be used. An entry without `:` is passed over; one whose region
/// would end past `usize::MAX` is refused as too large.
pub open spec fn plan_spec(entries: Seq<Seq<char>>) -> (Seq<(Seq<char>, usize)>, Seq<Seq<char>>)
    decreases entries.len(),
{
    if entries.len() == 0 {
        (Seq::empty(), Seq::empty())
    } else {
        let prev = plan_spec(entries.drop_last());
        let e = entries.last();
        if index_of(e, ':') == e.len() {
            prev
        } else {
            match parse_usize_spec(entry_size_text(e)) {
                Ok(v) => if accepted_total(prev.0) + v <= usize::MAX {
                    (prev.0.push((entry_name(e), v)), prev.1)
                } else {
                    (prev.0, prev.1.push(size_error_message(ParseIntError::PosOverflow, entry_size_text(e))))
                },
                Err(x) => (prev.0, prev.1.push(size_error_message(x, entry_size_text(e)))),
            }
        }
    }
}

/// The views of a list of strings.
pub open spec fn views(v: Seq<String>) -> Seq<Seq<char>> {
    v.map_values(|s: String| s@)
}

/// The modules a run is granted, with their slices of shared memory.
pub struct ModulePlan {
    pub layout: MemoryLayout,
    pub permitted: Vec<String>,
    pub errors: Vec<String>,
}

impl ModulePlan {
    /// The plan matches the accepted pairs `acc` and the messages `errs`.
    pub open spec fn describes(&self, acc: Seq<(Seq<char>, usize)>, errs: Seq<Seq<char>>) -> bool {
        &&& self.layout.wf()
        &&& self.layout.regions@.len() == acc.len()
        &&& self.permitted@.len() == acc.len()
        &&& self.layout.total == accepted_total(acc)
        &&& forall|i: int|
            0 <= i < acc.len() ==> (#[trigger] self.layout.regions@[i]).name@ == acc[i].0
                && self.layout.regions@[i].size == acc[i].1 && self.permitted@[i]@ == acc[i].0
        &&& views(self.errors@) == errs
    }
}

/// Reads the `name:size` module entries of a run: each accepted module is
/// granted and gets the next slice of shared memory.
pub fn plan_modules(entries: &Vec<String>) -> (r: ModulePlan)
    ensures
        r.describes(plan_spec(views(entries@)).0, plan_spec(views(entries@)).1),
{
    let mut plan = ModulePlan { layout: MemoryLayout::new(), permitted: Vec::new(), errors: Vec::new() };
    let ghost all = views(entries@);
    assert(views(plan.errors@) =~= Seq::<Seq<char>>::empty());
    let mut i: usize = 0;
    while i < entries.len()
        invariant
            i <= entries@.len(),
            all == views(entries@),
            plan.describes(plan_spec(all.subrange(0, i as int)).0, plan_spec(all.subrange(0, i as int)).1),
        decreases entries@.len() - i,
    {
        let ghost pre = all.subrange(0, i as int);
        let ghost cur = all.subrange(0, i + 1);
        assert(cur.drop_last() =~= pre);
        assert(cur.last() == entries@[i as int]@);
        let ghost acc = plan_spec(pre).0;
        let ghost errs = plan_spec(pre).1;
        let ghost old_errors = plan.errors@;
        match parse_module_entry(entries[i].as_str()) {
            None => {},
            Some(Ok((name, size))) => {
                let granted = name.clone();
                let ghost old_regions = plan.layout.regions@;
                let ghost old_permitted = plan.permitted@;
                if plan.layout.push_region(name, size) {
                    plan.permitted.push(granted);
                    assert forall|k: int| 0 <= k < acc.len() + 1 implies (#[trigger] plan.layout.regions@[k]).name@
                        == plan_spec(cur).0[k].0 && plan.layout.regions@[k].size == plan_spec(cur).0[k].1
                        && plan.permitted@[k]@ == plan_spec(cur).0[k].0 by {
                        if k < acc.len() {
                            assert(plan.layout.regions@[k] == old_regions[k]);
                            assert(plan.permitted@[k] == old_permitted[k]);
                        }
                    }
                    assert(plan_spec(cur).0.drop_last() =~= acc);
                } else {
                    proof {
                        lemma_index_of(entries@[i as int]@, ':');
                    }
                    let a = join(ParseIntError::PosOverflow.message(), " for usize ");
                    let text = size_text(entries[i].as_str());
                    let m = join(a.as_str(), text.as_str());
                    plan.errors.push(m);
                    assert(views(plan.errors@) =~= views(old_errors).push(m@));
                }
            },
            Some(Err(m)) => {
                plan.errors.push(m);
                assert(views(plan.errors@) =~= views(old_errors).push(m@));
            },
        }
        i = i + 1;
    }
    assert(all.subrange(0, i as int) =~= all);
    plan
}

/// The size text of a `name:size` entry that has a `:`.
fn size_text(entry: &str) -> (r: String)
    requires
        index_of(entry@, ':') < entry@.len(),
    ensures
        r@ == entry_size_text(entry@),
{
    let cs = chars_of(entry);
    let at = find_char(&cs, ':');
    proof {
        lemma_index_of(entry@, ':');
    }
    string_of_range(&cs, at + 1, cs.len())
}

} // verus!
