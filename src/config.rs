use vstd::prelude::*;

verus! {

/// The direction in which the bar fills.
#[derive(Debug, Clone, Copy, PartialEq, Eq, Structural)]
pub enum Direction {
    Up,
    Down,
    Left,
    Right,
}

/// The colors of one named profile, as 0xRRGGBB values.
#[derive(Debug, Clone, Copy, PartialEq, Eq, Structural)]
pub struct ColorConfig {
    pub foreground: u32,
    pub background: u32,
    pub border: u32,
}

impl ColorConfig {
    pub fn new(foreground: u32, background: u32, border: u32) -> (r: Self)
        ensures
            r == (ColorConfig { foreground, background, border }),
    {
        ColorConfig { foreground, background, border }
    }
}

/// The value of a hexadecimal digit, upper or lower case.
pub open spec fn hex_digit(c: char) -> Option<nat> {
    if '0' <= c && c <= '9' {
        Some((c as nat - '0' as nat) as nat)
    } else if 'a' <= c && c <= 'f' {
        Some((c as nat - 'a' as nat + 10) as nat)
    } else if 'A' <= c && c <= 'F' {
        Some((c as nat - 'A' as nat + 10) as nat)
    } else {
        None
    }
}

pub open spec fn all_hex_digits(s: Seq<char>) -> bool {
    forall|i: int| 0 <= i < s.len() ==> (#[trigger] hex_digit(s[i])).is_some()
}

/// The number that the hexadecimal digits `s` write, most significant first.
pub open spec fn hex_value(s: Seq<char>) -> nat
    decreases s.len(),
{
    if s.len() == 0 {
        0
    } else {
        hex_value(s.drop_last()) * 16 + hex_digit(s.last()).unwrap_or(0)
    }
}

/// The digits of a color: what follows its marker character, less a
/// leading `+` when digits follow it.
pub open spec fn color_digits(text: Seq<char>) -> Seq<char> {
    let rest = text.drop_first();
    if rest.len() > 1 && rest[0] == '+' {
        rest.drop_first()
    } else {
        rest
    }
}

/// A color written as one marker character (`#` by convention), an optional
/// `+`, and at least one hexadecimal digit, whose value fits in 32 bits.
pub open spec fn spec_parse_color(text: Seq<char>) -> Option<u32> {
    let digits = color_digits(text);
    if text.len() >= 1 && digits.len() >= 1 && all_hex_digits(digits) && hex_value(digits)
        <= u32::MAX {
        Some(hex_value(digits) as u32)
    } else {
        None
    }
}

proof fn lemma_hex_value_monotone(s: Seq<char>, i: int)
    requires
        0 <= i <= s.len(),
    ensures
        hex_value(s.subrange(0, i)) <= hex_value(s),
    decreases s.len() - i,
{
    if i < s.len() {
        assert(s.drop_last().subrange(0, i) =~= s.subrange(0, i));
        lemma_hex_value_monotone(s.drop_last(), i);
    } else {
        assert(s.subrange(0, i) =~= s);
    }
}

/// Parses a color such as `#ff8000`.
pub fn parse_color(text: &str) -> (r: Option<u32>)
    ensures
        r == spec_parse_color(text@),
{
    let n = text.unicode_len();
    if n < 2 {
        return None;
    }
    let start: usize = if n > 2 && text.get_char(1) == '+' {
        2
    } else {
        1
    };
    let ghost digits = text@.subrange(start as int, n as int);
    proof {
        assert(text@.drop_first()[0] == text@[1]);
        if start == 2 {
            assert(digits =~= text@.drop_first().drop_first());
        } else {
            assert(digits =~= text@.drop_first());
        }
    }
    let mut value: u64 = 0;
    let mut i: usize = start;
    while i < n
        invariant
            start <= i <= n,
            1 <= start,
            n == text@.len(),
            digits == text@.subrange(start as int, n as int),
            digits == color_digits(text@),
            all_hex_digits(digits.subrange(0, i - start)),
            value == hex_value(digits.subrange(0, i - start)),
            value <= u32::MAX,
        decreases n - i,
    {
        let c = text.get_char(i);
        let d: u64 = if '0' <= c && c <= '9' {
            (c as u64) - ('0' as u64)
        } else if 'a' <= c && c <= 'f' {
            (c as u64) - ('a' as u64) + 10
        } else if 'A' <= c && c <= 'F' {
            (c as u64) - ('A' as u64) + 10
        } else {
            proof {
                assert(digits[i - start] == c);
                assert(hex_digit(digits[i - start]).is_none());
                assert(!all_hex_digits(digits));
            }
            return None;
        };
        let ghost before = digits.subrange(0, i - start);
        let ghost after = digits.subrange(0, i - start + 1);
        proof {
            assert(after.drop_last() =~= before);
            assert(after.last() == c);
            assert forall|j: int| 0 <= j < after.len() implies (#[trigger] hex_digit(after[j])).is_some() by {
                if j < before.len() {
                    assert(after[j] == before[j]);
                }
            }
        }
        if value > (u32::MAX as u64 - d) / 16 {
            proof {
                assert(hex_value(after) > u32::MAX);
                lemma_hex_value_monotone(digits, i - start + 1);
            }
            return None;
        }
        value = value * 16 + d;
        i = i + 1;
    }
    proof {
        assert(digits.subrange(0, n - start) =~= digits);
    }
    Some(value as u32)
}

/// The profiles as a map, a later entry for a name taking the place of an
/// earlier one.
pub open spec fn profile_map(entries: Seq<(Seq<char>, ColorConfig)>) -> Map<Seq<char>, ColorConfig>
    decreases entries.len(),
{
    if entries.len() == 0 {
        Map::empty()
    } else {
        profile_map(entries.drop_last()).insert(entries.last().0, entries.last().1)
    }
}

/// The named color profiles.
#[derive(Clone)]
pub struct ColorProfiles {
    entries: Vec<(String, ColorConfig)>,
}

pub open spec fn entries_view(entries: Seq<(String, ColorConfig)>) -> Seq<(Seq<char>, ColorConfig)> {
    entries.map_values(|e: (String, ColorConfig)| (e.0@, e.1))
}

impl View for ColorProfiles {
    type V = Map<Seq<char>, ColorConfig>;

    closed spec fn view(&self) -> Map<Seq<char>, ColorConfig> {
        profile_map(entries_view(self.entries@))
    }
}

/// Entries after position `i` that do not name `name` leave its lookup to
/// the entries before `i`.
proof fn lemma_profile_map_prefix(e: Seq<(Seq<char>, ColorConfig)>, i: int, name: Seq<char>)
    requires
        0 <= i <= e.len(),
        forall|j: int| i <= j < e.len() ==> (#[trigger] e[j]).0 != name,
    ensures
        profile_map(e).contains_key(name) == profile_map(e.subrange(0, i)).contains_key(name),
        profile_map(e).contains_key(name) ==> profile_map(e)[name] == profile_map(
            e.subrange(0, i),
        )[name],
    decreases e.len() - i,
{
    if i < e.len() {
        let f = e.drop_last();
        assert(f.subrange(0, i) =~= e.subrange(0, i));
        assert forall|j: int| i <= j < f.len() implies (#[trigger] f[j]).0 != name by {
            assert(f[j] == e[j]);
        }
        lemma_profile_map_prefix(f, i, name);
    } else {
        assert(e.subrange(0, i) =~= e);
    }
}

impl ColorProfiles {
    /// No profiles.
    pub fn new() -> (r: Self)
        ensures
            r@ == Map::<Seq<char>, ColorConfig>::empty(),
    {
        let r = ColorProfiles { entries: Vec::new() };
        assert(entries_view(r.entries@) =~= Seq::empty());
        r
    }

    /// Adds profile `name`, in place of any profile of that name.
    pub fn insert(&mut self, name: String, colors: ColorConfig)
        ensures
            final(self)@ == old(self)@.insert(name@, colors),
    {
        let ghost before = entries_view(self.entries@);
        self.entries.push((name, colors));
        assert(entries_view(self.entries@).drop_last() =~= before);
    }

    /// The colors of profile `name`, if there is one.
    pub fn get(&self, name: &String) -> (r: Option<ColorConfig>)
        ensures
            r == (if self@.contains_key(name@) {
                Some(self@[name@])
            } else {
                None
            }),
    {
        let ghost e = entries_view(self.entries@);
        let mut i: usize = self.entries.len();
        while i > 0
            invariant
                i <= self.entries@.len(),
                e == entries_view(self.entries@),
                forall|j: int| i <= j < e.len() ==> (#[trigger] e[j]).0 != name@,
            decreases i,
        {
            i = i - 1;
            if self.entries[i].0 == *name {
                proof {
                    lemma_profile_map_prefix(e, i + 1, name@);
                    assert(e.subrange(0, i + 1).drop_last() =~= e.subrange(0, i as int));
                }
                return Some(self.entries[i].1);
            }
        }
        proof {
            lemma_profile_map_prefix(e, 0, name@);
            assert(e.subrange(0, 0) =~= Seq::<(Seq<char>, ColorConfig)>::empty());
        }
        None
    }

    /// True when there is a profile named `name`.
    pub fn contains(&self, name: &String) -> (r: bool)
        ensures
            r == self@.contains_key(name@),
    {
        self.get(name).is_some()
    }
}

} // verus!
