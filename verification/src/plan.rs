use vstd::prelude::*;
use vstd::string::StringExecFns;
use crate::freq::Freq;
use crate::instant::Instant;
use crate::inventory::inv_view;
use crate::inventory::is_due;
use crate::inventory::is_due_spec;
use crate::inventory::views;
use crate::name::format_name;
use crate::name::name_chars;
use crate::prune::select_victims;
use crate::prune::victims_spec;

verus! {

/// A subvolume: its filesystem path and its ordered frequency classes,
/// each with a retention count.  A class listed twice is processed twice,
/// the later occurrence seeing the earlier one's snapshot (the directory
/// is the single source of truth).
pub struct Subvolume {
    pub path: String,
    pub frequencies: Vec<(Freq, usize)>,
}

/// The work one frequency class contributes to a run: the snapshot to
/// create (when the class is due), then the victims to delete, oldest
/// first.  Victims assume the creation succeeded; a failed creation
/// aborts the class's remaining work, so they are then not used.
pub struct ClassPlan {
    pub freq: Freq,
    pub keep: usize,
    pub create: Option<String>,
    pub victims: Vec<String>,
}

/// The inventory after the first `freqs` classes were processed at `now`,
/// assuming every due creation succeeded: each due class appends its
/// freshly created record, so the same run's pruning step sees it.
pub open spec fn inv_after(
    freqs: Seq<(Freq, usize)>,
    inv: Seq<(Freq, Seq<char>)>,
    now: Instant,
) -> Seq<(Freq, Seq<char>)>
    decreases freqs.len(),
{
    if freqs.len() == 0 {
        inv
    } else {
        let pre = inv_after(freqs.drop_last(), inv, now);
        let f = freqs.last().0;
        if is_due_spec(f, now, pre) {
            pre.push((f, name_chars(now, f)))
        } else {
            pre
        }
    }
}

/// What one plan entry must say, given the inventory before (`pre`) and
/// after (`post`) its class's creation step.
pub open spec fn class_plan_ok(
    p: ClassPlan,
    f: Freq,
    keep: usize,
    pre: Seq<(Freq, Seq<char>)>,
    post: Seq<(Freq, Seq<char>)>,
    now: Instant,
) -> bool {
    &&& p.freq == f
    &&& p.keep == keep
    &&& (p.create is Some <==> is_due_spec(f, now, pre))
    &&& (p.create is Some ==> p.create->0@ == name_chars(now, f))
    &&& views(p.victims@) == victims_spec(post, f, keep as int)
}

/// Plans one run over a subvolume's classes, in configuration order: a
/// class is due on its cadence boundary or when it has no records yet;
/// victims are selected with the class's own fresh snapshot counted.  An
/// empty class list plans no work at all.
pub fn plan_classes(freqs: &Vec<(Freq, usize)>, inv: Vec<(Freq, String)>, now: &Instant) -> (plan:
    Vec<ClassPlan>)
    requires
        now.wf(),
    ensures
        plan@.len() == freqs@.len(),
        forall|i: int|
            0 <= i < freqs@.len() ==> #[trigger] class_plan_ok(
                plan@[i],
                freqs@[i].0,
                freqs@[i].1,
                inv_after(freqs@.take(i), inv_view(inv@), *now),
                inv_after(freqs@.take(i + 1), inv_view(inv@), *now),
                *now,
            ),
{
    let ghost inv0 = inv_view(inv@);
    let mut cur = inv;
    let mut plan: Vec<ClassPlan> = Vec::new();
    let mut i: usize = 0;
    while i < freqs.len()
        invariant
            now.wf(),
            i <= freqs@.len(),
            plan@.len() == i,
            inv_view(cur@) == inv_after(freqs@.take(i as int), inv0, *now),
            forall|j: int|
                0 <= j < i ==> #[trigger] class_plan_ok(
                    plan@[j],
                    freqs@[j].0,
                    freqs@[j].1,
                    inv_after(freqs@.take(j), inv0, *now),
                    inv_after(freqs@.take(j + 1), inv0, *now),
                    *now,
                ),
        decreases freqs@.len() - i,
    {
        let ghost pre = inv_view(cur@);
        let f = freqs[i].0;
        let keep = freqs[i].1;
        let due = is_due(&f, now, &cur);
        let create: Option<String>;
        if due {
            let nm = format_name(now, &f);
            create = Some(nm.clone());
            cur.push((f, nm));
            proof {
                assert(inv_view(cur@) =~= pre.push((f, name_chars(*now, f))));
            }
        } else {
            create = None;
        }
        proof {
            assert(freqs@.take(i + 1).drop_last() =~= freqs@.take(i as int));
            assert(freqs@.take(i + 1).last() == freqs@[i as int]);
            assert(inv_view(cur@) == inv_after(freqs@.take(i + 1), inv0, *now));
        }
        let victims = select_victims(&cur, &f, keep);
        plan.push(ClassPlan { freq: f, keep, create, victims });
        i += 1;
    }
    proof {
        assert(freqs@.take(freqs@.len() as int) =~= freqs@);
    }
    plan
}

impl Subvolume {
    /// The configured classes, in order.
    pub open spec fn freqs(self) -> Seq<(Freq, usize)> {
        self.frequencies@
    }

    /// Builds a subvolume from its path and configured classes.
    pub fn new(path: String, frequencies: Vec<(Freq, usize)>) -> (r: Subvolume)
        ensures
            r.path == path,
            r.freqs() == frequencies@,
    {
        Subvolume { path, frequencies }
    }

    /// The configured classes, for callers that drive the plan.
    pub fn frequencies(&self) -> (r: &Vec<(Freq, usize)>)
        ensures
            r@ == self.freqs(),
    {
        &self.frequencies
    }

    /// The subvolume's snapshot storage location.
    pub fn snapshots_dir(&self) -> (r: String)
        ensures
            r@ == self.path@ + "/.snapshots"@,
    {
        self.path.clone().concat("/.snapshots")
    }

    /// Where a snapshot with the given name lives under this subvolume.
    pub fn snapshot_path(&self, name: &str) -> (r: String)
        ensures
            r@ == self.path@ + "/.snapshots/"@ + name@,
    {
        self.path.clone().concat("/.snapshots/").concat(name)
    }

    /// Plans this subvolume's whole run from the scanned inventory.
    pub fn plan(&self, inventory: Vec<(Freq, String)>, now: &Instant) -> (plan: Vec<ClassPlan>)
        requires
            now.wf(),
        ensures
            plan@.len() == self.freqs().len(),
            forall|i: int|
                0 <= i < self.freqs().len() ==> #[trigger] class_plan_ok(
                    plan@[i],
                    self.freqs()[i].0,
                    self.freqs()[i].1,
                    inv_after(self.freqs().take(i), inv_view(inventory@), *now),
                    inv_after(self.freqs().take(i + 1), inv_view(inventory@), *now),
                    *now,
                ),
    {
        plan_classes(&self.frequencies, inventory, now)
    }
}

} // verus!
