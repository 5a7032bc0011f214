use vstd::prelude::*;
use crate::pathfinder::{player_mm, survey_mm, POS_SCALE};
use crate::state::{AppState, Mode, ResourceCount, Survey};
use crate::survey::{str_eq, zone_dimensions, zone_dims_spec};

verus! {

/// The decimal digit for `d < 10`.
pub open spec fn digit_char(d: nat) -> char {
    if d == 0 {
        '0'
    } else if d == 1 {
        '1'
    } else if d == 2 {
        '2'
    } else if d == 3 {
        '3'
    } else if d == 4 {
        '4'
    } else if d == 5 {
        '5'
    } else if d == 6 {
        '6'
    } else if d == 7 {
        '7'
    } else if d == 8 {
        '8'
    } else {
        '9'
    }
}

/// `n` written in decimal, without leading zeros.
pub open spec fn decimal(n: nat) -> Seq<char>
    decreases n,
{
    if n < 10 {
        seq![digit_char(n)]
    } else {
        decimal(n / 10) + seq![digit_char(n % 10)]
    }
}

fn digit_str(d: usize) -> (r: String)
    requires
        d < 10,
    ensures
        r@ == seq![digit_char(d as nat)],
{
    proof {
        reveal_strlit("0");
        reveal_strlit("1");
        reveal_strlit("2");
        reveal_strlit("3");
        reveal_strlit("4");
        reveal_strlit("5");
        reveal_strlit("6");
        reveal_strlit("7");
        reveal_strlit("8");
        reveal_strlit("9");
    }
    let s = if d == 0 {
        "0"
    } else if d == 1 {
        "1"
    } else if d == 2 {
        "2"
    } else if d == 3 {
        "3"
    } else if d == 4 {
        "4"
    } else if d == 5 {
        "5"
    } else if d == 6 {
        "6"
    } else if d == 7 {
        "7"
    } else if d == 8 {
        "8"
    } else {
        "9"
    };
    let r = String::from_str(s);
    assert(r@ =~= seq![digit_char(d as nat)]);
    r
}

/// `n` in decimal.
pub fn to_decimal(n: usize) -> (r: String)
    ensures
        r@ == decimal(n as nat),
    decreases n,
{
    if n < 10 {
        digit_str(n)
    } else {
        let mut s = to_decimal(n / 10);
        let d = digit_str(n % 10);
        s.append(d.as_str());
        s
    }
}

/// The mark shown on a found survey.
pub open spec fn found_mark() -> Seq<char> {
    "\u{00d7}"@
}

/// The label of survey `i`: the found mark if found; else its 1-based position in the
/// route if it is on it, else its 1-based index.
pub open spec fn label_spec(surveys: Seq<Survey>, path: Seq<usize>, i: int) -> Seq<char> {
    if surveys[i].found {
        found_mark()
    } else {
        match path.index_of_first(i as usize) {
            Some(k) => decimal((k + 1) as nat),
            None => decimal((i + 1) as nat),
        }
    }
}

/// Number of found surveys among the first `k`.
pub open spec fn found_prefix(s: Seq<Survey>, k: int) -> nat
    decreases k,
{
    if k <= 0 {
        0
    } else {
        found_prefix(s, k - 1) + if s[k - 1].found {
            1nat
        } else {
            0nat
        }
    }
}

/// "<found>/<total> found".
pub open spec fn summary_spec(s: Seq<Survey>) -> Seq<char> {
    decimal(found_prefix(s, s.len() as int)) + "/"@ + decimal(s.len()) + " found"@
}

/// The absolute position in millimeters of a survey seen from the player's position.
pub fn survey_position(player_pos: (u32, u32), zone: &str, s: &Survey) -> (r: (i64, i64))
    requires
        player_pos.0 <= POS_SCALE,
        player_pos.1 <= POS_SCALE,
    ensures
        r.0 == survey_mm(
            player_mm(player_pos.0 as int, zone_dims_spec(zone@).0 as int),
            s.dx as int,
            zone_dims_spec(zone@).0 as int,
        ),
        r.1 == survey_mm(
            player_mm(player_pos.1 as int, zone_dims_spec(zone@).1 as int),
            s.dy as int,
            zone_dims_spec(zone@).1 as int,
        ),
{
    let (zw, zh) = zone_dimensions(zone);
    assert(zw <= 3000 && zh <= 3000);
    assert(player_pos.0 * zw <= 3_000_000_000 && player_pos.1 * zh <= 3_000_000_000) by (nonlinear_arith)
        requires
            player_pos.0 <= 1_000_000,
            player_pos.1 <= 1_000_000,
            zw <= 3000,
            zh <= 3000,
    ;
    let px = player_pos.0 as i64 * zw as i64 / 1000;
    let py = player_pos.1 as i64 * zh as i64 / 1000;
    let sx = px + s.dx as i64 * 1000;
    let sy = py + s.dy as i64 * 1000;
    let w = zw as i64 * 1000;
    let h = zh as i64 * 1000;
    let cx = if sx < 0 { 0 } else if sx > w { w } else { sx };
    let cy = if sy < 0 { 0 } else if sy > h { h } else { sy };
    (cx, cy)
}

/// The mode's name.
pub fn mode_name(mode: Mode) -> (r: String)
    ensures
        r@ == match mode {
            Mode::Record => "record"@,
            Mode::Find => "find"@,
        },
{
    match mode {
        Mode::Record => String::from_str("record"),
        Mode::Find => String::from_str("find"),
    }
}

/// `a` comes strictly before `b` in lexicographic order of characters.
pub open spec fn seq_less(a: Seq<char>, b: Seq<char>) -> bool
    decreases a.len(),
{
    if a.len() == 0 {
        b.len() > 0
    } else if b.len() == 0 {
        false
    } else if a[0] != b[0] {
        a[0] < b[0]
    } else {
        seq_less(a.drop_first(), b.drop_first())
    }
}

proof fn lemma_less_irreflexive(a: Seq<char>)
    ensures
        !seq_less(a, a),
    decreases a.len(),
{
    if a.len() > 0 {
        lemma_less_irreflexive(a.drop_first());
    }
}

proof fn lemma_less_total(a: Seq<char>, b: Seq<char>)
    ensures
        a == b || seq_less(a, b) || seq_less(b, a),
        !(seq_less(a, b) && seq_less(b, a)),
    decreases a.len(),
{
    if a.len() > 0 && b.len() > 0 {
        lemma_less_total(a.drop_first(), b.drop_first());
        if a[0] == b[0] && a.drop_first() == b.drop_first() {
            assert(a =~= seq![a[0]] + a.drop_first());
            assert(b =~= seq![b[0]] + b.drop_first());
        }
    } else if a.len() == 0 && b.len() == 0 {
        assert(a =~= b);
    }
}

proof fn lemma_less_transitive(a: Seq<char>, b: Seq<char>, c: Seq<char>)
    requires
        seq_less(a, b),
        seq_less(b, c),
    ensures
        seq_less(a, c),
    decreases a.len(),
{
    if a.len() > 0 && b.len() > 0 && c.len() > 0 {
        if a[0] == b[0] && b[0] == c[0] {
            lemma_less_transitive(a.drop_first(), b.drop_first(), c.drop_first());
        }
    }
}

/// Compares two texts character by character.
pub fn str_less(a: &str, b: &str) -> (r: bool)
    ensures
        r == seq_less(a@, b@),
{
    let n = a.unicode_len();
    let m = b.unicode_len();
    let mut k: usize = 0;
    assert(a@.subrange(0, n as int) =~= a@);
    assert(b@.subrange(0, m as int) =~= b@);
    while k < n && k < m
        invariant
            n == a@.len(),
            m == b@.len(),
            k <= n,
            k <= m,
            seq_less(a@, b@) == seq_less(a@.subrange(k as int, n as int), b@.subrange(k as int, m as int)),
        decreases n - k,
    {
        let ca = a.get_char(k);
        let cb = b.get_char(k);
        let ghost sa = a@.subrange(k as int, n as int);
        let ghost sb = b@.subrange(k as int, m as int);
        assert(sa[0] == ca && sb[0] == cb);
        if ca != cb {
            return ca < cb;
        }
        assert(sa.drop_first() =~= a@.subrange(k as int + 1, n as int));
        assert(sb.drop_first() =~= b@.subrange(k as int + 1, m as int));
        k = k + 1;
    }
    k == n && k < m
}

/// Number of surveys among the first `k` of `s` that name `name`.
pub open spec fn name_count(s: Seq<Survey>, name: Seq<char>, k: int) -> nat
    decreases k,
{
    if k <= 0 {
        0
    } else {
        name_count(s, name, k - 1) + if s[k - 1].resource@ == name {
            1nat
        } else {
            0nat
        }
    }
}

/// `r` lists, in strictly ascending order of name, each resource named among the first
/// `k` surveys of `s` with the number of those surveys that name it.
pub open spec fn is_count_table(s: Seq<Survey>, k: int, r: Seq<ResourceCount>) -> bool {
    &&& forall|a: int, b: int| 0 <= a < b < r.len() ==> seq_less(r[a].name@, r[b].name@)
    &&& forall|a: int| 0 <= a < r.len() ==> #[trigger] r[a].count == name_count(s, r[a].name@, k) && r[a].count > 0
    &&& forall|j: int| 0 <= j < k ==> lists_name(r, #[trigger] s[j].resource@)
}

/// Some entry of `r` is for `name`.
pub open spec fn lists_name(r: Seq<ResourceCount>, name: Seq<char>) -> bool {
    exists|a: int| 0 <= a < r.len() && r[a].name@ == name
}

proof fn lemma_name_count_bound(s: Seq<Survey>, name: Seq<char>, k: int)
    requires
        0 <= k,
    ensures
        name_count(s, name, k) <= k,
    decreases k,
{
    if k > 0 {
        lemma_name_count_bound(s, name, k - 1);
    }
}

/// Counts of surveys per resource name, sorted by name.
pub fn resource_counts(surveys: &[Survey]) -> (r: Vec<ResourceCount>)
    ensures
        is_count_table(surveys@, surveys@.len() as int, r@),
{
    let mut r: Vec<ResourceCount> = Vec::new();
    let mut i: usize = 0;
    while i < surveys.len()
        invariant
            i <= surveys@.len(),
            is_count_table(surveys@, i as int, r@),
        decreases surveys@.len() - i,
    {
        let name = surveys[i].resource.as_str();
        let ghost nm = surveys@[i as int].resource@;
        let mut k: usize = 0;
        while k < r.len() && str_less(r[k].name.as_str(), name)
            invariant
                i < surveys@.len(),
                nm == name@,
                k <= r@.len(),
                is_count_table(surveys@, i as int, r@),
                forall|a: int| 0 <= a < k ==> seq_less(#[trigger] r@[a].name@, nm),
            decreases r@.len() - k,
        {
            k = k + 1;
        }
        let ghost old_r = r@;
        proof {
            lemma_name_count_bound(surveys@, nm, i as int);
        }
        if k < r.len() && str_eq(r[k].name.as_str(), name) {
            let c = r[k].count + 1;
            let e = ResourceCount { name: r[k].name.clone(), count: c };
            r.set(k, e);
            proof {
                assert forall|a: int| 0 <= a < r@.len() implies #[trigger] r@[a].count == name_count(
                    surveys@,
                    r@[a].name@,
                    i as int + 1,
                ) && r@[a].count > 0 by {
                    if a != k {
                        lemma_less_total(old_r[a].name@, nm);
                        if a > k {
                            assert(seq_less(old_r[k as int].name@, old_r[a].name@));
                        }
                    }
                }
                assert forall|j: int| 0 <= j < i + 1 implies lists_name(r@, surveys@[j].resource@) by {
                    if j < i {
                        assert(lists_name(old_r, surveys@[j].resource@));
                        let a = choose|a: int| 0 <= a < old_r.len() && old_r[a].name@ == surveys@[j].resource@;
                        assert(r@[a].name@ == surveys@[j].resource@);
                    } else {
                        assert(r@[k as int].name@ == surveys@[j].resource@);
                    }
                }
            }
        } else {
            let e = ResourceCount { name: surveys[i].resource.clone(), count: 1 };
            r.insert(k, e);
            proof {
                if k < old_r.len() {
                    lemma_less_total(old_r[k as int].name@, nm);
                }
                assert forall|a: int, b: int| 0 <= a < b < r@.len() implies seq_less(r@[a].name@, r@[b].name@) by {
                    if b < k {
                        assert(r@[a] == old_r[a]);
                        assert(r@[b] == old_r[b]);
                    } else if a < k && b == k {
                        assert(r@[a] == old_r[a]);
                    } else if a < k && b > k {
                        assert(r@[a] == old_r[a]);
                        assert(r@[b] == old_r[b - 1]);
                        assert(seq_less(old_r[a].name@, old_r[b - 1].name@));
                    } else if a == k && b > k {
                        assert(r@[b] == old_r[b - 1]);
                        if b - 1 > k {
                            assert(seq_less(old_r[k as int].name@, old_r[b - 1].name@));
                            lemma_less_transitive(nm, old_r[k as int].name@, old_r[b - 1].name@);
                        }
                    } else {
                        assert(r@[a] == old_r[a - 1]);
                        assert(r@[b] == old_r[b - 1]);
                        assert(seq_less(old_r[a - 1].name@, old_r[b - 1].name@));
                    }
                }
                assert forall|a: int| 0 <= a < r@.len() implies #[trigger] r@[a].count == name_count(
                    surveys@,
                    r@[a].name@,
                    i as int + 1,
                ) && r@[a].count > 0 by {
                    if a == k {
                        assert forall|j: int| 0 <= j < i implies surveys@[j].resource@ != nm by {
                            if surveys@[j].resource@ == nm {
                                assert(lists_name(old_r, surveys@[j].resource@));
                                let b = choose|b: int| 0 <= b < old_r.len() && old_r[b].name@ == surveys@[j].resource@;
                                if b < k {
                                    lemma_less_irreflexive(nm);
                                } else {
                                    lemma_less_total(old_r[k as int].name@, nm);
                                    if b > k {
                                        assert(seq_less(old_r[k as int].name@, old_r[b].name@));
                                        lemma_less_transitive(nm, old_r[k as int].name@, old_r[b].name@);
                                        lemma_less_irreflexive(nm);
                                    }
                                }
                            }
                        }
                        lemma_name_count_zero(surveys@, nm, i as int);
                    } else {
                        let oa = if a < k { a } else { a - 1 };
                        assert(r@[a] == old_r[oa]);
                        if oa < k {
                            lemma_less_irreflexive(nm);
                        } else {
                            if oa > k {
                                assert(seq_less(old_r[k as int].name@, old_r[oa].name@));
                                lemma_less_total(old_r[k as int].name@, nm);
                                lemma_less_transitive(nm, old_r[k as int].name@, old_r[oa].name@);
                            }
                            lemma_less_irreflexive(nm);
                        }
                    }
                }
                assert forall|j: int| 0 <= j < i + 1 implies lists_name(r@, surveys@[j].resource@) by {
                    if j < i {
                        assert(lists_name(old_r, surveys@[j].resource@));
                        let a = choose|a: int| 0 <= a < old_r.len() && old_r[a].name@ == surveys@[j].resource@;
                        if a < k {
                            assert(r@[a].name@ == surveys@[j].resource@);
                        } else {
                            assert(r@[a + 1].name@ == surveys@[j].resource@);
                        }
                    } else {
                        assert(r@[k as int].name@ == surveys@[j].resource@);
                    }
                }
            }
        }
        i = i + 1;
    }
    r
}

proof fn lemma_name_count_zero(s: Seq<Survey>, name: Seq<char>, k: int)
    requires
        0 <= k <= s.len(),
        forall|j: int| 0 <= j < k ==> s[j].resource@ != name,
    ensures
        name_count(s, name, k) == 0,
    decreases k,
{
    if k > 0 {
        lemma_name_count_zero(s, name, k - 1);
    }
}

impl AppState {
    /// The label of survey `i`.
    pub fn dot_label(&self, i: usize) -> (r: String)
        requires
            i < self.surveys@.len(),
        ensures
            r@ == label_spec(self.surveys@, self.path_order@, i as int),
    {
        if self.surveys[i].found {
            return String::from_str("\u{00d7}");
        }
        proof {
            self.path_order@.index_of_first_ensures(i);
        }
        let mut k: usize = 0;
        while k < self.path_order.len()
            invariant
                i < self.surveys@.len(),
                !self.surveys@[i as int].found,
                k <= self.path_order@.len(),
                forall|j: int| 0 <= j < k ==> self.path_order@[j] != i,
            decreases self.path_order@.len() - k,
        {
            if self.path_order[k] == i {
                proof {
                    self.path_order@.index_of_first_ensures(i);
                    assert(self.path_order@.contains(i));
                    let f = self.path_order@.index_of_first(i);
                    assert(f == Some(k as int));
                    assert(!self.surveys@[i as int].found);
                }
                return to_decimal(k + 1);
            }
            k = k + 1;
        }
        assert(!self.path_order@.contains(i));
        let n = self.surveys.len();
        assert(i < n);
        to_decimal(i + 1)
    }

    /// "<found>/<total> found" over the committed surveys.
    pub fn summary(&self) -> (r: String)
        ensures
            r@ == summary_spec(self.surveys@),
    {
        let mut found: usize = 0;
        let mut i: usize = 0;
        while i < self.surveys.len()
            invariant
                i <= self.surveys@.len(),
                found == found_prefix(self.surveys@, i as int),
                found <= i,
            decreases self.surveys@.len() - i,
        {
            if self.surveys[i].found {
                found = found + 1;
            }
            i = i + 1;
        }
        let mut s = to_decimal(found);
        s.append("/");
        let t = to_decimal(self.surveys.len());
        s.append(t.as_str());
        s.append(" found");
        s
    }
}

} // verus!
