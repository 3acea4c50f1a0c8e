//! Tag filters given on the command line, and the display style of each tag.
use crate::task::{contains_string, strings_view};
use vstd::prelude::*;
use vstd::string::StrSliceExecFns;

verus! {

/// A tag to add, written `+tag`.
#[derive(Clone, Debug)]
pub struct AddTag(String);

/// A tag to exclude or remove, written `/tag`.
#[derive(Clone, Debug)]
pub struct NegTag(String);

/// A tag to include (`+tag`) or to exclude (`/tag`).
#[derive(Clone, Debug)]
pub enum FilterTag {
    Add(AddTag),
    Neg(NegTag),
}

/// `s` with its first character dropped, when that character is `prefix`.
pub open spec fn after_prefix(s: Seq<char>, prefix: char) -> Option<Seq<char>> {
    if s.len() > 0 && s[0] == prefix {
        Some(s.drop_first())
    } else {
        None
    }
}

/// The rest of `s` after a leading `prefix`, if it has one.
fn strip_prefix_char(s: &str, prefix: char) -> (r: Option<String>)
    ensures
        match after_prefix(s@, prefix) {
            Some(rest) => r matches Some(t) && t@ == rest,
            None => r is None,
        },
{
    let n = s.unicode_len();
    if n > 0 && s.get_char(0) == prefix {
        let rest = s.substring_char(1, n);
        assert(rest@ =~= s@.drop_first());
        Some(rest.to_owned())
    } else {
        None
    }
}

impl AddTag {
    /// Reads `+tag`.
    pub fn parse(s: &str) -> (r: Result<AddTag, &'static str>)
        ensures
            match after_prefix(s@, '+') {
                Some(rest) => r matches Ok(t) && t@ == rest,
                None => r matches Err(e) && e@ == "tag must start with +"@,
            },
    {
        match strip_prefix_char(s, '+') {
            Some(t) => Ok(AddTag(t)),
            None => Err("tag must start with +"),
        }
    }

    /// The tag itself, without its `+`.
    pub fn as_str(&self) -> (r: &str)
        ensures
            r@ == self@,
    {
        self.0.as_str()
    }

    pub fn into_string(self) -> (r: String)
        ensures
            r@ == self@,
    {
        self.0
    }
}

impl View for AddTag {
    type V = Seq<char>;

    closed spec fn view(&self) -> Seq<char> {
        self.0@
    }
}

impl NegTag {
    /// Reads `/tag`.
    pub fn parse(s: &str) -> (r: Result<NegTag, &'static str>)
        ensures
            match after_prefix(s@, '/') {
                Some(rest) => r matches Ok(t) && t@ == rest,
                None => r matches Err(e) && e@ == "negation tag must start with /"@,
            },
    {
        match strip_prefix_char(s, '/') {
            Some(t) => Ok(NegTag(t)),
            None => Err("negation tag must start with /"),
        }
    }

    /// The tag itself, without its `/`.
    pub fn as_str(&self) -> (r: &str)
        ensures
            r@ == self@,
    {
        self.0.as_str()
    }

    pub fn into_string(self) -> (r: String)
        ensures
            r@ == self@,
    {
        self.0
    }
}

impl View for NegTag {
    type V = Seq<char>;

    closed spec fn view(&self) -> Seq<char> {
        self.0@
    }
}

impl View for FilterTag {
    type V = (bool, Seq<char>);

    /// Whether the filter excludes, and its tag.
    open spec fn view(&self) -> (bool, Seq<char>) {
        match self {
            FilterTag::Add(t) => (false, t@),
            FilterTag::Neg(t) => (true, t@),
        }
    }
}

impl FilterTag {
    /// Reads `+tag` or `/tag`.
    pub fn parse(s: &str) -> (r: Result<FilterTag, &'static str>)
        ensures
            match after_prefix(s@, '+') {
                Some(rest) => r matches Ok(t) && t@ == (false, rest),
                None => match after_prefix(s@, '/') {
                    Some(rest) => r matches Ok(t) && t@ == (true, rest),
                    None => r matches Err(e) && e@ == "filter tag must start with + or /"@,
                },
            },
    {
        match AddTag::parse(s) {
            Ok(t) => Ok(FilterTag::Add(t)),
            Err(_) => match NegTag::parse(s) {
                Ok(t) => Ok(FilterTag::Neg(t)),
                Err(_) => Err("filter tag must start with + or /"),
            },
        }
    }

    pub fn is_neg(&self) -> (r: bool)
        ensures
            r == self@.0,
    {
        match self {
            FilterTag::Add(_) => false,
            FilterTag::Neg(_) => true,
        }
    }

    /// The tag itself, without its prefix.
    pub fn as_str(&self) -> (r: &str)
        ensures
            r@ == self@.1,
    {
        match self {
            FilterTag::Add(t) => t.as_str(),
            FilterTag::Neg(t) => t.as_str(),
        }
    }

    pub fn into_string(self) -> (r: String)
        ensures
            r@ == self@.1,
    {
        match self {
            FilterTag::Add(t) => t.into_string(),
            FilterTag::Neg(t) => t.into_string(),
        }
    }

    /// Whether a record with `tags` passes: it has the tag, for `+tag`; it
    /// lacks it, for `/tag`.
    pub fn filter(&self, tags: &[String]) -> (r: bool)
        ensures
            r == (strings_view(tags@).contains(self@.1) != self@.0),
    {
        match self {
            FilterTag::Add(t) => contains_string(tags, &t.0),
            FilterTag::Neg(t) => !contains_string(tags, &t.0),
        }
    }
}

impl std::str::FromStr for AddTag {
    type Err = &'static str;

    fn from_str(s: &str) -> Result<AddTag, &'static str> {
        AddTag::parse(s)
    }
}

impl std::str::FromStr for NegTag {
    type Err = &'static str;

    fn from_str(s: &str) -> Result<NegTag, &'static str> {
        NegTag::parse(s)
    }
}

impl std::str::FromStr for FilterTag {
    type Err = &'static str;

    fn from_str(s: &str) -> Result<FilterTag, &'static str> {
        FilterTag::parse(s)
    }
}

/// `a` sorts before `b`: characters compared by code point, a proper prefix
/// first. This is the order of Rust strings.
pub open spec fn seq_lt(a: Seq<char>, b: Seq<char>) -> bool
    decreases a.len(),
{
    if a.len() == 0 {
        b.len() > 0
    } else if b.len() == 0 {
        false
    } else if a[0] != b[0] {
        a[0] < b[0]
    } else {
        seq_lt(a.drop_first(), b.drop_first())
    }
}

proof fn lemma_lt_irreflexive(a: Seq<char>)
    ensures
        !seq_lt(a, a),
    decreases a.len(),
{
    if a.len() > 0 {
        lemma_lt_irreflexive(a.drop_first());
    }
}

proof fn lemma_lt_total(a: Seq<char>, b: Seq<char>)
    ensures
        a == b || seq_lt(a, b) || seq_lt(b, a),
    decreases a.len(),
{
    if a.len() > 0 && b.len() > 0 && a[0] == b[0] {
        lemma_lt_total(a.drop_first(), b.drop_first());
        if a.drop_first() == b.drop_first() {
            assert(a =~= seq![a[0]] + a.drop_first());
            assert(b =~= seq![b[0]] + b.drop_first());
        }
    } else if a.len() == 0 && b.len() == 0 {
        assert(a =~= b);
    }
}

proof fn lemma_lt_transitive(a: Seq<char>, b: Seq<char>, c: Seq<char>)
    requires
        seq_lt(a, b),
        seq_lt(b, c),
    ensures
        seq_lt(a, c),
    decreases a.len(),
{
    if a.len() > 0 && b.len() > 0 && c.len() > 0 && a[0] == b[0] && b[0] == c[0] {
        lemma_lt_transitive(a.drop_first(), b.drop_first(), c.drop_first());
    }
}

proof fn lemma_lt_common_prefix(a: Seq<char>, b: Seq<char>, i: int)
    requires
        0 <= i <= a.len(),
        i <= b.len(),
        a.subrange(0, i) == b.subrange(0, i),
    ensures
        seq_lt(a, b) == seq_lt(a.subrange(i, a.len() as int), b.subrange(i, b.len() as int)),
    decreases i,
{
    if i > 0 {
        assert(a[0] == a.subrange(0, i)[0]);
        assert(b[0] == b.subrange(0, i)[0]);
        assert(a.drop_first().subrange(0, i - 1) =~= a.subrange(0, i).drop_first());
        assert(b.drop_first().subrange(0, i - 1) =~= b.subrange(0, i).drop_first());
        lemma_lt_common_prefix(a.drop_first(), b.drop_first(), i - 1);
        assert(a.drop_first().subrange(i - 1, a.len() - 1) =~= a.subrange(i, a.len() as int));
        assert(b.drop_first().subrange(i - 1, b.len() - 1) =~= b.subrange(i, b.len() as int));
    } else {
        assert(a.subrange(0, a.len() as int) =~= a);
        assert(b.subrange(0, b.len() as int) =~= b);
    }
}

/// Whether `a` sorts before `b`.
pub fn str_lt(a: &str, b: &str) -> (r: bool)
    ensures
        r == seq_lt(a@, b@),
{
    let n = a.unicode_len();
    let m = b.unicode_len();
    let mut i: usize = 0;
    while i < n && i < m && a.get_char(i) == b.get_char(i)
        invariant
            0 <= i <= n,
            i <= m,
            n == a@.len(),
            m == b@.len(),
            a@.subrange(0, i as int) == b@.subrange(0, i as int),
        decreases n - i,
    {
        assert(a@.subrange(0, i + 1) =~= a@.subrange(0, i as int).push(a@[i as int]));
        assert(b@.subrange(0, i + 1) =~= b@.subrange(0, i as int).push(b@[i as int]));
        i += 1;
    }
    proof {
        lemma_lt_common_prefix(a@, b@, i as int);
        let ra = a@.subrange(i as int, n as int);
        let rb = b@.subrange(i as int, m as int);
        if i < n && i < m {
            assert(ra[0] == a@[i as int]);
            assert(rb[0] == b@[i as int]);
        }
    }
    if i < n && i < m {
        a.get_char(i) < b.get_char(i)
    } else {
        i == n && i < m
    }
}

/// The 16 named terminal colours, and 24-bit colours.
#[derive(Clone, Copy, Debug, PartialEq, Eq, Structural)]
pub enum Colour {
    Black,
    Red,
    Green,
    Yellow,
    Blue,
    Magenta,
    Cyan,
    White,
    BrightBlack,
    BrightRed,
    BrightGreen,
    BrightYellow,
    BrightBlue,
    BrightMagenta,
    BrightCyan,
    BrightWhite,
    TrueColor { r: u8, g: u8, b: u8 },
}

/// The name a colour is stored under; 24-bit colours are stored as black.
pub open spec fn colour_name(c: Colour) -> Seq<char> {
    match c {
        Colour::Black => "black"@,
        Colour::Red => "red"@,
        Colour::Green => "green"@,
        Colour::Yellow => "yellow"@,
        Colour::Blue => "blue"@,
        Colour::Magenta => "magenta"@,
        Colour::Cyan => "cyan"@,
        Colour::White => "white"@,
        Colour::BrightBlack => "bright black"@,
        Colour::BrightRed => "bright red"@,
        Colour::BrightGreen => "bright green"@,
        Colour::BrightYellow => "bright yellow"@,
        Colour::BrightBlue => "bright blue"@,
        Colour::BrightMagenta => "bright magenta"@,
        Colour::BrightCyan => "bright cyan"@,
        Colour::BrightWhite => "bright white"@,
        Colour::TrueColor { .. } => "black"@,
    }
}

impl Colour {
    pub fn name(&self) -> (r: &'static str)
        ensures
            r@ == colour_name(*self),
    {
        match self {
            Colour::Black => "black",
            Colour::Red => "red",
            Colour::Green => "green",
            Colour::Yellow => "yellow",
            Colour::Blue => "blue",
            Colour::Magenta => "magenta",
            Colour::Cyan => "cyan",
            Colour::White => "white",
            Colour::BrightBlack => "bright black",
            Colour::BrightRed => "bright red",
            Colour::BrightGreen => "bright green",
            Colour::BrightYellow => "bright yellow",
            Colour::BrightBlue => "bright blue",
            Colour::BrightMagenta => "bright magenta",
            Colour::BrightCyan => "bright cyan",
            Colour::BrightWhite => "bright white",
            Colour::TrueColor { .. } => "black",
        }
    }
}

/// How a tag is shown: a foreground colour name and an optional background.
#[derive(Clone, Debug)]
pub struct Style {
    pub fg: String,
    pub bg: Option<String>,
}

/// The mathematical value of a style.
pub struct StyleView {
    pub fg: Seq<char>,
    pub bg: Option<Seq<char>>,
}

impl View for Style {
    type V = StyleView;

    open spec fn view(&self) -> StyleView {
        StyleView {
            fg: self.fg@,
            bg: match self.bg {
                Some(b) => Some(b@),
                None => None,
            },
        }
    }
}

/// The style of a tag never styled before: green on the default background.
pub open spec fn default_style() -> StyleView {
    StyleView { fg: "green"@, bg: None }
}

impl Default for Style {
    fn default() -> (r: Style)
        ensures
            r@ == default_style(),
    {
        Style { fg: "green".to_owned(), bg: None }
    }
}

/// The styles of tags, one entry per tag, in tag order.
#[derive(Debug)]
pub struct Tags(Vec<(String, Style)>);

/// The tag and style values of the entries.
pub open spec fn entries_view(s: Seq<(String, Style)>) -> Seq<(Seq<char>, StyleView)> {
    s.map_values(|e: (String, Style)| (e.0@, e.1@))
}

impl View for Tags {
    type V = Seq<(Seq<char>, StyleView)>;

    closed spec fn view(&self) -> Seq<(Seq<char>, StyleView)> {
        entries_view(self.0@)
    }
}

/// Tags strictly ascending, hence each tag once.
pub open spec fn sorted_tags(s: Seq<(Seq<char>, StyleView)>) -> bool {
    forall|i: int, j: int| 0 <= i < j < s.len() ==> seq_lt(#[trigger] s[i].0, #[trigger] s[j].0)
}

/// The style of `tag`, if it has an entry.
pub open spec fn lookup(s: Seq<(Seq<char>, StyleView)>, tag: Seq<char>) -> Option<StyleView> {
    if exists|i: int| 0 <= i < s.len() && #[trigger] s[i].0 == tag {
        Some(s[choose|i: int| 0 <= i < s.len() && #[trigger] s[i].0 == tag].1)
    } else {
        None
    }
}

proof fn lemma_lookup_at(s: Seq<(Seq<char>, StyleView)>, i: int)
    requires
        sorted_tags(s),
        0 <= i < s.len(),
    ensures
        lookup(s, s[i].0) == Some(s[i].1),
{
    let j = choose|j: int| 0 <= j < s.len() && #[trigger] s[j].0 == s[i].0;
    if j != i {
        if j < i {
            assert(seq_lt(s[j].0, s[i].0));
        } else {
            assert(seq_lt(s[i].0, s[j].0));
        }
        lemma_lt_irreflexive(s[i].0);
    }
}

/// A tag that sorts after every entry before `p` and before the entry at `p`
/// has no entry.
proof fn lemma_absent(s: Seq<(Seq<char>, StyleView)>, p: int, tag: Seq<char>)
    requires
        sorted_tags(s),
        0 <= p <= s.len(),
        forall|j: int| 0 <= j < p ==> seq_lt(#[trigger] s[j].0, tag),
        p < s.len() ==> seq_lt(tag, s[p].0),
    ensures
        lookup(s, tag) is None,
{
    if exists|i: int| 0 <= i < s.len() && #[trigger] s[i].0 == tag {
        let i = choose|i: int| 0 <= i < s.len() && #[trigger] s[i].0 == tag;
        lemma_lt_irreflexive(tag);
        if i > p {
            assert(seq_lt(s[p].0, s[i].0));
            lemma_lt_transitive(tag, s[p].0, s[i].0);
        }
    }
}

/// Changing the style of an entry keeps the order, and every other lookup.
proof fn lemma_update_entry(s: Seq<(Seq<char>, StyleView)>, p: int, v: StyleView)
    requires
        sorted_tags(s),
        0 <= p < s.len(),
    ensures
        sorted_tags(s.update(p, (s[p].0, v))),
        lookup(s.update(p, (s[p].0, v)), s[p].0) == Some(v),
        forall|k: Seq<char>| k != s[p].0 ==> #[trigger] lookup(s.update(p, (s[p].0, v)), k) == lookup(s, k),
{
    let n = s.update(p, (s[p].0, v));
    assert forall|i: int, j: int| 0 <= i < j < n.len() implies seq_lt(#[trigger] n[i].0, #[trigger] n[j].0) by {
        assert(n[i].0 == s[i].0 && n[j].0 == s[j].0);
    }
    lemma_lookup_at(n, p);
    assert forall|k: Seq<char>| k != s[p].0 implies #[trigger] lookup(n, k) == lookup(s, k) by {
        if exists|i: int| 0 <= i < s.len() && #[trigger] s[i].0 == k {
            let i = choose|i: int| 0 <= i < s.len() && #[trigger] s[i].0 == k;
            lemma_lookup_at(s, i);
            lemma_lookup_at(n, i);
        } else if exists|i: int| 0 <= i < n.len() && #[trigger] n[i].0 == k {
            let i = choose|i: int| 0 <= i < n.len() && #[trigger] n[i].0 == k;
            assert(s[i].0 == k);
        }
    }
}

/// Inserting a new tag at its place in the order keeps the order, and every
/// other lookup.
#[verifier::rlimit(30)]
proof fn lemma_insert_entry(s: Seq<(Seq<char>, StyleView)>, p: int, tag: Seq<char>, v: StyleView)
    requires
        sorted_tags(s),
        0 <= p <= s.len(),
        forall|j: int| 0 <= j < p ==> seq_lt(#[trigger] s[j].0, tag),
        p < s.len() ==> seq_lt(tag, s[p].0),
    ensures
        sorted_tags(s.insert(p, (tag, v))),
        lookup(s.insert(p, (tag, v)), tag) == Some(v),
        forall|k: Seq<char>| k != tag ==> #[trigger] lookup(s.insert(p, (tag, v)), k) == lookup(s, k),
{
    let n = s.insert(p, (tag, v));
    assert forall|j: int| p < j < n.len() implies seq_lt(tag, #[trigger] n[j].0) by {
        assert(n[j] == s[j - 1]);
        if j - 1 > p {
            assert(seq_lt(s[p].0, s[j - 1].0));
            lemma_lt_transitive(tag, s[p].0, s[j - 1].0);
        }
    }
    assert forall|i: int, j: int| 0 <= i < j < n.len() implies seq_lt(#[trigger] n[i].0, #[trigger] n[j].0) by {
        if j < p {
            assert(n[i] == s[i] && n[j] == s[j]);
        } else if j == p {
            assert(n[i] == s[i]);
        } else if i == p {
        } else if i < p {
            assert(n[i] == s[i]);
            assert(seq_lt(tag, n[j].0));
            lemma_lt_transitive(s[i].0, tag, n[j].0);
        } else {
            assert(n[i] == s[i - 1] && n[j] == s[j - 1]);
        }
    }
    lemma_lookup_at(n, p);
    assert forall|k: Seq<char>| k != tag implies #[trigger] lookup(n, k) == lookup(s, k) by {
        if exists|i: int| 0 <= i < s.len() && #[trigger] s[i].0 == k {
            let i = choose|i: int| 0 <= i < s.len() && #[trigger] s[i].0 == k;
            lemma_lookup_at(s, i);
            if i < p {
                assert(n[i] == s[i]);
                lemma_lookup_at(n, i);
            } else {
                assert(n[i + 1] == s[i]);
                lemma_lookup_at(n, i + 1);
            }
        } else if exists|i: int| 0 <= i < n.len() && #[trigger] n[i].0 == k {
            let i = choose|i: int| 0 <= i < n.len() && #[trigger] n[i].0 == k;
            if i < p {
                assert(n[i] == s[i]);
            } else {
                assert(n[i] == s[i - 1]);
            }
        }
    }
}

impl Tags {
    /// The tags are kept strictly ascending.
    #[verifier::type_invariant]
    spec fn inv(self) -> bool {
        sorted_tags(entries_view(self.0@))
    }

    pub fn new() -> (r: Tags)
        ensures
            r@.len() == 0,
    {
        let r = Tags(Vec::new());
        assert(r@ =~= Seq::empty());
        r
    }

    /// The entries, in tag order.
    pub fn iter(&self) -> (r: &[(String, Style)])
        ensures
            entries_view(r@) == self@,
    {
        self.0.as_slice()
    }

    /// The position of the first entry whose tag does not sort before `tag`.
    fn position(&self, tag: &str) -> (r: usize)
        ensures
            r <= self@.len(),
            forall|j: int| 0 <= j < r ==> seq_lt(#[trigger] self@[j].0, tag@),
            r < self@.len() ==> !seq_lt(self@[r as int].0, tag@),
    {
        let mut i: usize = 0;
        while i < self.0.len() && str_lt(self.0[i].0.as_str(), tag)
            invariant
                0 <= i <= self.0.len(),
                self@ == entries_view(self.0@),
                forall|j: int| 0 <= j < i ==> seq_lt(#[trigger] self@[j].0, tag@),
            decreases self.0.len() - i,
        {
            i += 1;
        }
        i
    }

    /// The style of `tag`, if it has one.
    pub fn get(&self, tag: &str) -> (r: Option<&Style>)
        ensures
            match lookup(self@, tag@) {
                Some(st) => r matches Some(s) && s@ == st,
                None => r is None,
            },
    {
        proof {
            use_type_invariant(self);
        }
        let p = self.position(tag);
        if p < self.0.len() && !str_lt(tag, self.0[p].0.as_str()) {
            proof {
                lemma_lt_total(self@[p as int].0, tag@);
                lemma_lookup_at(self@, p as int);
            }
            Some(&self.0[p].1)
        } else {
            proof {
                if exists|i: int| 0 <= i < self@.len() && #[trigger] self@[i].0 == tag@ {
                    let i = choose|i: int| 0 <= i < self@.len() && #[trigger] self@[i].0 == tag@;
                    lemma_lt_irreflexive(tag@);
                    if i > p {
                        assert(seq_lt(self@[p as int].0, self@[i].0));
                        lemma_lt_total(self@[p as int].0, tag@);
                    }
                }
            }
            None
        }
    }

    /// Gives `tag` the given colours over its current style (or over the
    /// default style, if it has none), keeping every other entry.
    fn update_style(&mut self, tag: &str, fg: Option<&str>, bg: Option<&str>)
        ensures
            sorted_tags(final(self)@),
            lookup(final(self)@, tag@) == Some(restyled(
                match lookup(old(self)@, tag@) {
                    Some(st) => st,
                    None => default_style(),
                },
                opt_view(fg),
                opt_view(bg),
            )),
            forall|k: Seq<char>| k != tag@ ==> #[trigger] lookup(final(self)@, k) == lookup(old(self)@, k),
    {
        proof {
            use_type_invariant(&*self);
        }
        let p = self.position(tag);
        let ghost s = self@;
        let found = p < self.0.len() && !str_lt(tag, self.0[p].0.as_str());
        let mut taken = Tags(Vec::new());
        std::mem::swap(self, &mut taken);
        let Tags(mut v) = taken;
        assert(entries_view(v@) == s);
        let (key, mut style) = if found {
            proof {
                lemma_lt_total(s[p as int].0, tag@);
                lemma_lookup_at(s, p as int);
            }
            v.remove(p)
        } else {
            proof {
                if p < s.len() {
                    lemma_lt_total(s[p as int].0, tag@);
                }
                lemma_absent(s, p as int, tag@);
            }
            (tag.to_owned(), Style::default())
        };
        let ghost rest = entries_view(v@);
        let ghost base = style@;
        match fg {
            Some(f) => {
                style.fg = f.to_owned();
            },
            None => {},
        }
        match bg {
            Some(b) => {
                style.bg = Some(b.to_owned());
            },
            None => {},
        }
        v.insert(p, (key, style));
        proof {
            let val = restyled(base, opt_view(fg), opt_view(bg));
            if found {
                assert(entries_view(v@) =~= s.update(p as int, (tag@, val)));
                lemma_update_entry(s, p as int, val);
            } else {
                assert(rest =~= s);
                assert(entries_view(v@) =~= s.insert(p as int, (tag@, val)));
                lemma_insert_entry(s, p as int, tag@, val);
            }
        }
        *self = Tags(v);
    }

    /// Gives `tag` the colour names `fg` and `bg` where given, over its current
    /// style (or the default style, if it has none), creating its entry if
    /// needed.
    pub fn set_style(&mut self, tag: &str, fg: Option<&str>, bg: Option<&str>)
        ensures
            sorted_tags(final(self)@),
            lookup(final(self)@, tag@) == Some(restyled(
                match lookup(old(self)@, tag@) {
                    Some(st) => st,
                    None => default_style(),
                },
                opt_view(fg),
                opt_view(bg),
            )),
            forall|k: Seq<char>| k != tag@ ==> #[trigger] lookup(final(self)@, k) == lookup(old(self)@, k),
    {
        self.update_style(tag, fg, bg);
    }

    /// Sets the foreground colour of `tag`, creating its entry if needed.
    pub fn set_fg(&mut self, tag: &str, fg: Colour)
        ensures
            sorted_tags(final(self)@),
            lookup(final(self)@, tag@) == Some(StyleView {
                fg: colour_name(fg),
                bg: match lookup(old(self)@, tag@) {
                    Some(st) => st.bg,
                    None => None,
                },
            }),
            forall|k: Seq<char>| k != tag@ ==> #[trigger] lookup(final(self)@, k) == lookup(old(self)@, k),
    {
        self.update_style(tag, Some(fg.name()), None);
    }

    /// Sets the background colour of `tag`, creating its entry if needed.
    pub fn set_bg(&mut self, tag: &str, bg: Colour)
        ensures
            sorted_tags(final(self)@),
            lookup(final(self)@, tag@) == Some(StyleView {
                fg: match lookup(old(self)@, tag@) {
                    Some(st) => st.fg,
                    None => default_style().fg,
                },
                bg: Some(colour_name(bg)),
            }),
            forall|k: Seq<char>| k != tag@ ==> #[trigger] lookup(final(self)@, k) == lookup(old(self)@, k),
    {
        self.update_style(tag, None, Some(bg.name()));
    }
}

/// The text of an optional string.
pub open spec fn opt_view(o: Option<&str>) -> Option<Seq<char>> {
    match o {
        Some(s) => Some(s@),
        None => None,
    }
}

/// `st` with the given colours replacing its own.
pub open spec fn restyled(st: StyleView, fg: Option<Seq<char>>, bg: Option<Seq<char>>) -> StyleView {
    StyleView {
        fg: match fg {
            Some(f) => f,
            None => st.fg,
        },
        bg: match bg {
            Some(b) => Some(b),
            None => st.bg,
        },
    }
}

impl Default for Tags {
    fn default() -> (r: Tags)
        ensures
            r@.len() == 0,
    {
        Tags::new()
    }
}

/// The most characters of any entry's tag (`col` 0), foreground (1) or
/// background (2, an absent one counting as none), and at least `floor`.
pub open spec fn widest(s: Seq<(Seq<char>, StyleView)>, col: int, floor: nat) -> nat
    decreases s.len(),
{
    if s.len() == 0 {
        floor
    } else {
        let rest = widest(s.drop_last(), col, floor);
        let e = s.last();
        let w = if col == 0 {
            e.0.len()
        } else if col == 1 {
            e.1.fg.len()
        } else {
            match e.1.bg {
                Some(b) => b.len(),
                None => 0,
            }
        };
        if w > rest {
            w
        } else {
            rest
        }
    }
}

impl Tags {
    /// Widths of the tag, foreground and background columns of the style
    /// table: the widest entry of each, and at least the width of the
    /// headings "Tag", "FG" and "BG".
    pub fn column_widths(&self) -> (r: (usize, usize, usize))
        ensures
            r.0 == widest(self@, 0, 3),
            r.1 == widest(self@, 1, 2),
            r.2 == widest(self@, 2, 2),
    {
        let entries = self.0.as_slice();
        let mut w: (usize, usize, usize) = (3, 2, 2);
        let mut i: usize = 0;
        while i < entries.len()
            invariant
                0 <= i <= entries@.len(),
                entries_view(entries@) == self@,
                w.0 == widest(self@.subrange(0, i as int), 0, 3),
                w.1 == widest(self@.subrange(0, i as int), 1, 2),
                w.2 == widest(self@.subrange(0, i as int), 2, 2),
            decreases entries@.len() - i,
        {
            let ghost next = self@.subrange(0, i + 1);
            assert(next.drop_last() =~= self@.subrange(0, i as int));
            let (tag, style) = &entries[i];
            let t = tag.as_str().unicode_len();
            let f = style.fg.as_str().unicode_len();
            let b = match &style.bg {
                Some(b) => b.as_str().unicode_len(),
                None => 0,
            };
            if t > w.0 {
                w.0 = t;
            }
            if f > w.1 {
                w.1 = f;
            }
            if b > w.2 {
                w.2 = b;
            }
            i += 1;
        }
        assert(self@.subrange(0, i as int) =~= self@);
        w
    }
}

} // verus!
