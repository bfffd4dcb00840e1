//! Per-language byte totals: color resolution and the fold of one
//! repository's languages into a running total.

use crate::ranking::{is_stable_desc_ranking, rank_desc};
use vstd::arithmetic::div_mod::*;
use vstd::prelude::*;
use vstd::string::*;

verus! {

/// Color used for a language that has none upstream nor in the override table.
pub const DEFAULT_COLOR: &'static str = "#808080";

/// A language as the upstream payload names it, with its color if it has one.
pub struct LanguageName {
    pub name: String,
    pub color: Option<String>,
}

/// One language's accumulated total.
pub struct LanguageEntry {
    pub name: String,
    pub color: String,
    pub bytes: u64,
}

impl LanguageEntry {
    pub open spec fn spec_view(&self) -> LangView {
        (self.name@, self.color@, self.bytes as nat)
    }
}

/// A language's name, display color and byte total.
pub type LangView = (Seq<char>, Seq<char>, nat);

/// Byte totals per language, one entry per name, in order of first encounter.
pub struct LanguageTotals {
    entries: Vec<LanguageEntry>,
}

impl View for LanguageTotals {
    type V = Seq<LangView>;

    closed spec fn view(&self) -> Seq<LangView> {
        self.entries@.map_values(|e: LanguageEntry| e.spec_view())
    }
}

/// No two entries share a name.
pub open spec fn names_unique(s: Seq<LangView>) -> bool {
    forall|i: int, j: int| 0 <= i < j < s.len() ==> s[i].0 != s[j].0
}

/// Every byte total fits in a `u64`.
pub open spec fn bytes_bounded(s: Seq<LangView>) -> bool {
    forall|i: int| 0 <= i < s.len() ==> #[trigger] s[i].2 <= u64::MAX
}

pub open spec fn has_language(s: Seq<LangView>, name: Seq<char>) -> bool {
    exists|i: int| 0 <= i < s.len() && s[i].0 == name
}

/// Position of the entry named `name`, where there is one.
pub open spec fn language_index(s: Seq<LangView>, name: Seq<char>) -> int {
    choose|i: int| 0 <= i < s.len() && s[i].0 == name
}

/// Addition that stops at the largest `u64`.
pub open spec fn sat_add(a: nat, b: nat) -> nat {
    if a + b > u64::MAX {
        u64::MAX as nat
    } else {
        a + b
    }
}

/// The byte total recorded for `name`; zero where it has no entry.
pub open spec fn bytes_of(s: Seq<LangView>, name: Seq<char>) -> nat {
    if has_language(s, name) {
        s[language_index(s, name)].2
    } else {
        0
    }
}

/// Adding `size` bytes of `name`: an existing entry grows and keeps its
/// color; a new name is appended with `color`.
pub open spec fn spec_add(s: Seq<LangView>, name: Seq<char>, color: Seq<char>, size: nat) -> Seq<
    LangView,
> {
    if has_language(s, name) {
        let i = language_index(s, name);
        s.update(i, (s[i].0, s[i].1, sat_add(s[i].2, size)))
    } else {
        s.push((name, color, size))
    }
}

proof fn lemma_add_facts(s: Seq<LangView>, name: Seq<char>, color: Seq<char>, size: nat)
    requires
        names_unique(s),
        size <= u64::MAX,
    ensures
        names_unique(spec_add(s, name, color, size)),
        bytes_bounded(s) ==> bytes_bounded(spec_add(s, name, color, size)),
        has_language(spec_add(s, name, color, size), name),
        bytes_of(spec_add(s, name, color, size), name) == sat_add(bytes_of(s, name), size),
        spec_add(s, name, color, size)[language_index(spec_add(s, name, color, size), name)].1
            == if has_language(s, name) {
            s[language_index(s, name)].1
        } else {
            color
        },
{
    let r = spec_add(s, name, color, size);
    if has_language(s, name) {
        let i = language_index(s, name);
        assert(r[i].0 == name);
        assert(language_index(r, name) == i);
    } else {
        let n = s.len() as int;
        assert(r[n].0 == name);
        assert(language_index(r, name) == n);
    }
}

proof fn lemma_index_unique(s: Seq<LangView>, i: int)
    requires
        names_unique(s),
        0 <= i < s.len(),
    ensures
        has_language(s, s[i].0),
        language_index(s, s[i].0) == i,
        bytes_of(s, s[i].0) == s[i].2,
{
    assert(s[i].0 == s[i].0);
    let k = language_index(s, s[i].0);
    assert(s[k].0 == s[i].0);
}

/// What adding `size` bytes of `name` does to the entry of any name `m`.
pub proof fn lemma_add_lookup(
    s: Seq<LangView>,
    name: Seq<char>,
    color: Seq<char>,
    size: nat,
    m: Seq<char>,
)
    requires
        names_unique(s),
        bytes_bounded(s),
        size <= u64::MAX,
    ensures
        names_unique(spec_add(s, name, color, size)),
        bytes_bounded(spec_add(s, name, color, size)),
        has_language(spec_add(s, name, color, size), m) == (has_language(s, m) || m == name),
        bytes_of(spec_add(s, name, color, size), m) == if m == name {
            sat_add(bytes_of(s, m), size)
        } else {
            bytes_of(s, m)
        },
{
    lemma_add_facts(s, name, color, size);
    let r = spec_add(s, name, color, size);
    if m != name {
        if has_language(s, m) {
            let k = language_index(s, m);
            assert(r[k] == s[k]);
            lemma_index_unique(r, k);
        }
        if has_language(r, m) {
            let j = language_index(r, m);
            assert(r[j].0 == m);
            assert(j < s.len());
            assert(r[j] == s[j]);
            lemma_index_unique(s, j);
        }
    }
}

/// Every entry of `r` has an entry of the same name in `a`, with no more
/// bytes.
pub open spec fn languages_within(r: Seq<LangView>, a: Seq<LangView>) -> bool {
    forall|i: int|
        0 <= i < r.len() ==> has_language(a, #[trigger] r[i].0) && r[i].2 <= bytes_of(a, r[i].0)
}

/// Adding the same bytes to both keeps one set of totals within the other.
proof fn lemma_add_within(
    r: Seq<LangView>,
    a: Seq<LangView>,
    name: Seq<char>,
    c1: Seq<char>,
    c2: Seq<char>,
    size: nat,
)
    requires
        names_unique(r),
        names_unique(a),
        bytes_bounded(r),
        bytes_bounded(a),
        languages_within(r, a),
        size <= u64::MAX,
    ensures
        languages_within(spec_add(r, name, c1, size), spec_add(a, name, c2, size)),
{
    let r2 = spec_add(r, name, c1, size);
    let a2 = spec_add(a, name, c2, size);
    lemma_add_facts(r, name, c1, size);
    assert forall|i: int| 0 <= i < r2.len() implies has_language(a2, #[trigger] r2[i].0) && r2[i].2
        <= bytes_of(a2, r2[i].0) by {
        let m = r2[i].0;
        lemma_index_unique(r2, i);
        lemma_add_lookup(r, name, c1, size, m);
        lemma_add_lookup(a, name, c2, size, m);
        if has_language(r, m) {
            let k = language_index(r, m);
            assert(r[k].0 == m);
            lemma_index_unique(r, k);
        }
    }
}

/// Adding bytes to `a` keeps `r` within it.
proof fn lemma_add_grows(r: Seq<LangView>, a: Seq<LangView>, name: Seq<char>, c: Seq<char>, size: nat)
    requires
        names_unique(a),
        bytes_bounded(a),
        languages_within(r, a),
        size <= u64::MAX,
    ensures
        languages_within(r, spec_add(a, name, c, size)),
{
    assert forall|i: int| 0 <= i < r.len() implies has_language(
        spec_add(a, name, c, size),
        #[trigger] r[i].0,
    ) && r[i].2 <= bytes_of(spec_add(a, name, c, size), r[i].0) by {
        assert(has_language(a, r[i].0) && r[i].2 <= bytes_of(a, r[i].0));
        lemma_add_lookup(a, name, c, size, r[i].0);
    }
}

/// Folding one repository's languages into both totals keeps one within the
/// other; folding them into `a` alone does too.
pub proof fn lemma_fold_within(
    r: Seq<LangView>,
    a: Seq<LangView>,
    sizes: Seq<u64>,
    names: Seq<LanguageName>,
    n: int,
)
    requires
        names_unique(r),
        names_unique(a),
        bytes_bounded(r),
        bytes_bounded(a),
        languages_within(r, a),
        n <= sizes.len(),
        n <= names.len(),
    ensures
        names_unique(fold_languages(r, sizes, names, n)),
        names_unique(fold_languages(a, sizes, names, n)),
        bytes_bounded(fold_languages(r, sizes, names, n)),
        bytes_bounded(fold_languages(a, sizes, names, n)),
        languages_within(fold_languages(r, sizes, names, n), fold_languages(a, sizes, names, n)),
        languages_within(r, fold_languages(a, sizes, names, n)),
    decreases n,
{
    if n > 0 {
        lemma_fold_within(r, a, sizes, names, n - 1);
        let l = names[n - 1];
        let c = spec_color(l.name@, l.color.deep_view());
        let fr = fold_languages(r, sizes, names, n - 1);
        let fa = fold_languages(a, sizes, names, n - 1);
        lemma_add_lookup(fr, l.name@, c, sizes[n - 1] as nat, l.name@);
        lemma_add_lookup(fa, l.name@, c, sizes[n - 1] as nat, l.name@);
        lemma_add_within(fr, fa, l.name@, c, c, sizes[n - 1] as nat);
        lemma_add_grows(r, fa, l.name@, c, sizes[n - 1] as nat);
    }
}

/// Folding two sizes of one language in either order gives the same byte
/// total, the old total plus both sizes (stopping at the largest `u64`);
/// where both carry the same color the totals are equal outright.
pub proof fn lemma_fold_order_irrelevant(
    s: Seq<LangView>,
    name: Seq<char>,
    c1: Seq<char>,
    a: nat,
    c2: Seq<char>,
    b: nat,
)
    requires
        names_unique(s),
        a <= u64::MAX,
        b <= u64::MAX,
    ensures
        bytes_of(spec_add(spec_add(s, name, c1, a), name, c2, b), name) == bytes_of(
            spec_add(spec_add(s, name, c2, b), name, c1, a),
            name,
        ),
        bytes_of(spec_add(spec_add(s, name, c1, a), name, c2, b), name) == if bytes_of(s, name)
            + a + b > u64::MAX {
            u64::MAX as nat
        } else {
            bytes_of(s, name) + a + b
        },
        c1 == c2 ==> spec_add(spec_add(s, name, c1, a), name, c2, b) == spec_add(
            spec_add(s, name, c2, b),
            name,
            c1,
            a,
        ),
{
    lemma_add_facts(s, name, c1, a);
    lemma_add_facts(s, name, c2, b);
    lemma_add_facts(spec_add(s, name, c1, a), name, c2, b);
    lemma_add_facts(spec_add(s, name, c2, b), name, c1, a);
    if c1 == c2 {
        let x = spec_add(spec_add(s, name, c1, a), name, c2, b);
        let y = spec_add(spec_add(s, name, c2, b), name, c1, a);
        if has_language(s, name) {
            let i = language_index(s, name);
            assert(x =~= y);
        } else {
            let n = s.len() as int;
            assert(x[n].0 == name);
            assert(y[n].0 == name);
            assert(x =~= y);
        }
    }
}

/// The color shown for a language: the upstream one, else a known override,
/// else the default gray.
pub open spec fn spec_color(lang: Seq<char>, color: Option<Seq<char>>) -> Seq<char> {
    match color {
        Some(c) => c,
        None => if lang == "Perl 6"@ {
            "#00A9E0"@
        } else if lang == "XS"@ {
            "#021c9e"@
        } else {
            DEFAULT_COLOR@
        },
    }
}

pub fn language_color(lang: &String, color: &Option<String>) -> (r: String)
    ensures
        r@ == spec_color(lang@, color.deep_view()),
{
    match color {
        Some(c) => c.clone(),
        None => {
            if *lang == String::from_str("Perl 6") {
                String::from_str("#00A9E0")
            } else if *lang == String::from_str("XS") {
                String::from_str("#021c9e")
            } else {
                String::from_str(DEFAULT_COLOR)
            }
        },
    }
}

/// The totals after folding in the first `n` languages of one repository.
pub open spec fn fold_languages(
    s: Seq<LangView>,
    sizes: Seq<u64>,
    names: Seq<LanguageName>,
    n: int,
) -> Seq<LangView>
    decreases n,
{
    if n <= 0 {
        s
    } else {
        let prev = fold_languages(s, sizes, names, n - 1);
        let l = names[n - 1];
        spec_add(prev, l.name@, spec_color(l.name@, l.color.deep_view()), sizes[n - 1] as nat)
    }
}

/// `name` is on the deny-list.
pub open spec fn is_ignored(ignored: Seq<String>, name: Seq<char>) -> bool {
    exists|i: int| 0 <= i < ignored.len() && ignored[i]@ == name
}

impl LanguageTotals {
    pub open spec fn wf(&self) -> bool {
        names_unique(self@) && bytes_bounded(self@)
    }

    pub fn new() -> (r: Self)
        ensures
            r.wf(),
            r@ == Seq::<LangView>::empty(),
    {
        let r = LanguageTotals { entries: Vec::new() };
        assert(r@ =~= Seq::<LangView>::empty());
        r
    }

    pub fn len(&self) -> (r: usize)
        ensures
            r == self@.len(),
    {
        self.entries.len()
    }

    /// The entry at position `i`, in order of first encounter.
    pub fn entry(&self, i: usize) -> (r: &LanguageEntry)
        requires
            i < self@.len(),
        ensures
            r.spec_view() == self@[i as int],
    {
        &self.entries[i]
    }

    /// The byte total of `name`, where it has an entry.
    pub fn bytes_for(&self, name: &String) -> (r: Option<u64>)
        requires
            self.wf(),
        ensures
            r is Some <==> has_language(self@, name@),
            r matches Some(b) ==> b as nat == bytes_of(self@, name@),
    {
        let mut i: usize = 0;
        while i < self.entries.len()
            invariant
                self.wf(),
                i <= self@.len(),
                forall|j: int| 0 <= j < i ==> self@[j].0 != name@,
            decreases self@.len() - i,
        {
            if self.entries[i].name == *name {
                proof {
                    assert(self@[i as int].0 == name@);
                    let k = language_index(self@, name@);
                    assert(self@[k].0 == name@);
                }
                return Some(self.entries[i].bytes);
            }
            i += 1;
        }
        None
    }

    /// Adds `size` bytes of `name`; `color` is kept only for a name not yet
    /// present. Totals stop at the largest `u64`.
    pub fn add_language(&mut self, name: &String, color: &String, size: u64)
        requires
            old(self).wf(),
        ensures
            final(self).wf(),
            final(self)@ == spec_add(old(self)@, name@, color@, size as nat),
    {
        let ghost s0 = self@;
        let mut i: usize = 0;
        while i < self.entries.len()
            invariant
                self@ == s0,
                s0 == old(self)@,
                names_unique(s0),
                i <= s0.len(),
                forall|j: int| 0 <= j < i ==> s0[j].0 != name@,
            decreases s0.len() - i,
        {
            if self.entries[i].name == *name {
                let bytes = self.entries[i].bytes.saturating_add(size);
                let e = LanguageEntry {
                    name: self.entries[i].name.clone(),
                    color: self.entries[i].color.clone(),
                    bytes,
                };
                self.entries.set(i, e);
                proof {
                    assert(s0[i as int].0 == name@);
                    assert(has_language(s0, name@));
                    let k = language_index(s0, name@);
                    assert(k == i);
                    assert(self@ =~= spec_add(s0, name@, color@, size as nat));
                }
                return;
            }
            i += 1;
        }
        self.entries.push(
            LanguageEntry { name: name.clone(), color: color.clone(), bytes: size },
        );
        proof {
            assert(!has_language(s0, name@));
            assert(self@ =~= s0.push((name@, color@, size as nat)));
        }
    }
}

/// Folds one repository's languages into `stats`. Nothing changes where the
/// two parallel lists differ in length (an inconsistent payload) or where
/// the repository is on the deny-list.
pub fn collect_language_stats(
    stats: &mut LanguageTotals,
    repo_name: &String,
    lang_sizes: &Vec<u64>,
    lang_names_and_colors: &Vec<LanguageName>,
    ignored: &Vec<String>,
)
    requires
        old(stats).wf(),
    ensures
        final(stats).wf(),
        final(stats)@ == if lang_sizes.len() != lang_names_and_colors.len() || is_ignored(
            ignored@,
            repo_name@,
        ) {
            old(stats)@
        } else {
            fold_languages(old(stats)@, lang_sizes@, lang_names_and_colors@, lang_sizes.len() as int)
        },
{
    if lang_sizes.len() != lang_names_and_colors.len() {
        return;
    }
    let mut k: usize = 0;
    while k < ignored.len()
        invariant
            stats.wf(),
            stats@ == old(stats)@,
            k <= ignored.len(),
            forall|j: int| 0 <= j < k ==> ignored@[j]@ != repo_name@,
        decreases ignored.len() - k,
    {
        if ignored[k] == *repo_name {
            return;
        }
        k += 1;
    }
    let ghost s0 = stats@;
    let mut i: usize = 0;
    while i < lang_sizes.len()
        invariant
            lang_sizes.len() == lang_names_and_colors.len(),
            i <= lang_sizes.len(),
            stats.wf(),
            s0 == old(stats)@,
            stats@ == fold_languages(s0, lang_sizes@, lang_names_and_colors@, i as int),
        decreases lang_sizes.len() - i,
    {
        let l = &lang_names_and_colors[i];
        let color = language_color(&l.name, &l.color);
        stats.add_language(&l.name, &color, lang_sizes[i]);
        i += 1;
    }
}

/// A language as the report shows it: its share of all bytes, in whole
/// percent, and its byte total.
pub struct LanguageStat {
    pub name: String,
    pub color: String,
    pub percentage: u64,
    pub bytes: u64,
}

/// Name, color, percentage and byte total.
pub type StatView = (Seq<char>, Seq<char>, nat, nat);

impl LanguageStat {
    pub open spec fn spec_view(&self) -> StatView {
        (self.name@, self.color@, self.percentage as nat, self.bytes as nat)
    }
}

/// The sum of all byte totals.
pub open spec fn total_bytes(s: Seq<LangView>) -> nat
    decreases s.len(),
{
    if s.len() == 0 {
        0
    } else {
        total_bytes(s.drop_last()) + s.last().2
    }
}

/// A language is shown when it holds at least one percent of all bytes,
/// before rounding.
pub open spec fn is_shown(size: nat, total: nat) -> bool {
    100 * size >= total
}

/// `100 * size / total` rounded to the nearest integer, halves up.
pub open spec fn percentage(size: nat, total: nat) -> nat
    recommends
        total > 0,
{
    let x: int = 100 * size as int;
    let t: int = total as int;
    if 2 * (x % t) >= t {
        (x / t + 1) as nat
    } else {
        (x / t) as nat
    }
}

/// The shown languages, in the order of the totals, with their percentages.
pub open spec fn shown_languages(s: Seq<LangView>, total: nat) -> Seq<StatView>
    decreases s.len(),
{
    if s.len() == 0 {
        Seq::empty()
    } else {
        let prev = shown_languages(s.drop_last(), total);
        let e = s.last();
        if is_shown(e.2, total) {
            prev.push((e.0, e.1, percentage(e.2, total), e.2))
        } else {
            prev
        }
    }
}

pub open spec fn percentage_keys(c: Seq<StatView>) -> Seq<i64> {
    Seq::new(c.len(), |i: int| c[i].2 as i64)
}

/// `r` is the shown languages of `s`, ranked by descending percentage, ties
/// in the order of the totals; empty where no bytes are recorded.
pub open spec fn is_top_languages(s: Seq<LangView>, r: Seq<StatView>) -> bool {
    let total = total_bytes(s);
    if total == 0 {
        r.len() == 0
    } else {
        let c = shown_languages(s, total);
        &&& r.len() == c.len()
        &&& exists|p: Seq<usize>|
            is_stable_desc_ranking(percentage_keys(c), p) && forall|i: int|
                0 <= i < r.len() ==> r[i] == c[p[i] as int]
    }
}

proof fn lemma_entry_within_total(s: Seq<LangView>, i: int)
    requires
        0 <= i < s.len(),
    ensures
        s[i].2 <= total_bytes(s),
    decreases s.len(),
{
    if i < s.len() - 1 {
        lemma_entry_within_total(s.drop_last(), i);
    }
}

proof fn lemma_percentage_range(x: int, t: int)
    requires
        t <= x <= 100 * t,
        t > 0,
    ensures
        1 <= x / t <= 100,
        x / t == 100 ==> x % t == 0,
{
    lemma_div_is_ordered(t, x, t);
    lemma_div_is_ordered(x, 100 * t, t);
    lemma_div_by_multiple(100, t);
    lemma_div_by_multiple(1, t);
    lemma_fundamental_div_mod(x, t);
    lemma_mod_pos_bound(x, t);
    assert(1 <= x / t <= 100);
    if x / t == 100 {
        assert(x == t * 100 + x % t);
        assert(x % t == 0);
    }
}

pub fn top_languages(languages: &LanguageTotals) -> (r: Vec<LanguageStat>)
    ensures
        is_top_languages(languages@, r@.map_values(|l: LanguageStat| l.spec_view())),
        forall|i: int| 0 <= i < r@.len() ==> 1 <= #[trigger] r@[i].percentage <= 100,
{
    let ghost s = languages@;
    let n = languages.len();
    let mut total: u128 = 0;
    let mut i: usize = 0;
    while i < n
        invariant
            n == s.len(),
            s == languages@,
            i <= n,
            total == total_bytes(s.subrange(0, i as int)),
            total <= i * 0xFFFF_FFFF_FFFF_FFFFu128,
        decreases n - i,
    {
        proof {
            assert(s.subrange(0, i + 1).drop_last() =~= s.subrange(0, i as int));
        }
        total = total + languages.entry(i).bytes as u128;
        i += 1;
    }
    assert(s.subrange(0, n as int) =~= s);
    let mut shown: Vec<LanguageStat> = Vec::new();
    if total == 0 {
        assert(shown@.map_values(|l: LanguageStat| l.spec_view()) =~= Seq::<StatView>::empty());
        return shown;
    }
    let mut keys: Vec<i64> = Vec::new();
    let mut i: usize = 0;
    while i < n
        invariant
            n == s.len(),
            s == languages@,
            i <= n,
            total == total_bytes(s),
            total > 0,
            shown@.map_values(|l: LanguageStat| l.spec_view()) =~= shown_languages(
                s.subrange(0, i as int),
                total as nat,
            ),
            keys@ =~= percentage_keys(shown_languages(s.subrange(0, i as int), total as nat)),
            forall|j: int| 0 <= j < shown@.len() ==> 1 <= #[trigger] shown@[j].percentage <= 100,
        decreases n - i,
    {
        let e = languages.entry(i);
        let b = e.bytes as u128;
        proof {
            assert(s.subrange(0, i + 1).drop_last() =~= s.subrange(0, i as int));
            assert(s.subrange(0, i + 1).last() == s[i as int]);
            lemma_entry_within_total(s, i as int);
        }
        if 100 * b >= total {
            let x = 100 * b;
            let q = x / total;
            let rem = x % total;
            proof {
                lemma_percentage_range(x as int, total as int);
            }
            let pct: u64 = if rem >= total - rem {
                (q + 1) as u64
            } else {
                q as u64
            };
            shown.push(
                LanguageStat { name: e.name.clone(), color: e.color.clone(), percentage: pct, bytes: e.bytes },
            );
            keys.push(pct as i64);
        }
        i += 1;
    }
    let ghost c = shown_languages(s, total as nat);
    assert(s.subrange(0, n as int) =~= s);
    let ranked = rank_desc(&keys);
    let mut top: Vec<LanguageStat> = Vec::new();
    let mut k: usize = 0;
    while k < ranked.len()
        invariant
            k <= ranked@.len(),
            is_stable_desc_ranking(keys@, ranked@),
            keys@.len() == shown@.len(),
            shown@.map_values(|l: LanguageStat| l.spec_view()) =~= c,
            top@.len() == k,
            forall|j: int| 0 <= j < k ==> top@[j].spec_view() == c[ranked@[j] as int],
            forall|j: int| 0 <= j < shown@.len() ==> 1 <= #[trigger] shown@[j].percentage <= 100,
            forall|j: int| 0 <= j < top@.len() ==> 1 <= #[trigger] top@[j].percentage <= 100,
        decreases ranked@.len() - k,
    {
        let l = &shown[ranked[k]];
        top.push(
            LanguageStat { name: l.name.clone(), color: l.color.clone(), percentage: l.percentage, bytes: l.bytes },
        );
        k += 1;
    }
    let ghost tv = top@.map_values(|l: LanguageStat| l.spec_view());
    assert(is_stable_desc_ranking(percentage_keys(c), ranked@));
    assert(forall|j: int| 0 <= j < tv.len() ==> tv[j] == c[ranked@[j] as int]);
    top
}

} // verus!
