use vstd::prelude::*;
use crate::state::Survey;

verus! {

/// Width and height in meters of the named zone; unknown names fall back to Serbule.
pub open spec fn zone_dims_spec(zone: Seq<char>) -> (u32, u32) {
    if zone == "Serbule Hills"@ {
        (2748, 2668)
    } else if zone == "Eltibule"@ {
        (2684, 2778)
    } else if zone == "Ilmari"@ {
        (2920, 2920)
    } else if zone == "Kur Mountains"@ {
        (3000, 3000)
    } else {
        (2382, 2488)
    }
}

/// Returns (width, height) in meters for a zone.
pub fn zone_dimensions(zone: &str) -> (r: (u32, u32))
    ensures
        r == zone_dims_spec(zone@),
{
    if str_eq(zone, "Serbule Hills") {
        (2748, 2668)
    } else if str_eq(zone, "Eltibule") {
        (2684, 2778)
    } else if str_eq(zone, "Ilmari") {
        (2920, 2920)
    } else if str_eq(zone, "Kur Mountains") {
        (3000, 3000)
    } else {
        (2382, 2488)
    }
}

/// Character-wise string equality.
pub fn str_eq(a: &str, b: &str) -> (r: bool)
    ensures
        r == (a@ == b@),
{
    let n = a.unicode_len();
    if n != b.unicode_len() {
        return false;
    }
    let mut i: usize = 0;
    while i < n
        invariant
            n == a@.len(),
            n == b@.len(),
            i <= n,
            forall|k: int| 0 <= k < i ==> a@[k] == b@[k],
        decreases n - i,
    {
        if a.get_char(i) != b.get_char(i) {
            return false;
        }
        i = i + 1;
    }
    proof {
        assert(a@ =~= b@);
    }
    true
}

} // verus!

verus! {

/// No later entry of `s` names the same resource as entry `i`.
pub open spec fn is_last_of_name(s: Seq<Survey>, i: int) -> bool {
    forall|j: int| i < j < s.len() ==> s[j].resource@ != s[i].resource@
}

/// The entries among the first `k` of `s` that are the last of their name, in order.
pub open spec fn dedup_prefix(s: Seq<Survey>, k: int) -> Seq<Survey>
    decreases k,
{
    if k <= 0 {
        Seq::empty()
    } else if is_last_of_name(s, k - 1) {
        dedup_prefix(s, k - 1).push(s[k - 1])
    } else {
        dedup_prefix(s, k - 1)
    }
}

/// Each resource name's last occurrence in `s`, in ascending index order.
pub open spec fn dedup_spec(s: Seq<Survey>) -> Seq<Survey> {
    dedup_prefix(s, s.len() as int)
}

/// Deduplicate surveys by resource name, keeping the last occurrence of each.
pub fn deduplicate_surveys(surveys: &[Survey]) -> (r: Vec<Survey>)
    ensures
        r@ == dedup_spec(surveys@),
{
    let n = surveys.len();
    let mut result: Vec<Survey> = Vec::new();
    let mut i: usize = 0;
    while i < n
        invariant
            n == surveys@.len(),
            i <= n,
            result@ == dedup_prefix(surveys@, i as int),
        decreases n - i,
    {
        let mut last = true;
        let mut j: usize = i + 1;
        while j < n
            invariant
                n == surveys@.len(),
                i < j <= n,
                last == (forall|k: int| i < k < j ==> surveys@[k].resource@ != surveys@[i as int].resource@),
            decreases n - j,
        {
            if surveys[j].resource == surveys[i].resource {
                last = false;
            }
            j = j + 1;
        }
        if last {
            result.push(surveys[i].duplicate());
        }
        i = i + 1;
    }
    result
}

} // verus!
