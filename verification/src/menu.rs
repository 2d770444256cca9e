//! The tray menu: its entries, the label shown for each layout, and what a
//! click on an entry asks for.
use vstd::prelude::*;

use crate::config::{Config, Layout};
use crate::hotkey::{is_whitespace, whitespace};
use crate::text::{chars_of, push_char, sort_strings, sorted_text, texts};

verus! {

/// What `char::to_uppercase` gives for a character (one or more characters).
pub uninterp spec fn uppercase(c: char) -> Seq<char>;

/// Calls `char::to_uppercase` and collects the characters it yields. The
/// contract only names the result: it depends on `c` alone.
#[verifier::external_body]
fn to_uppercase(c: char) -> (s: String)
    ensures
        s@ == uppercase(c),
{
    c.to_uppercase().collect()
}

/// The words of `s`: maximal runs of non-whitespace characters, in order, as
/// `str::split_whitespace` gives them.
pub open spec fn words(s: Seq<char>) -> Seq<Seq<char>>
    decreases s.len(),
{
    if s.len() == 0 {
        Seq::empty()
    } else {
        let w = words(s.drop_last());
        if is_whitespace(s.last()) {
            w
        } else if s.len() >= 2 && !is_whitespace(s[s.len() - 2]) {
            w.update(w.len() - 1, w.last().push(s.last()))
        } else {
            w.push(seq![s.last()])
        }
    }
}

proof fn lemma_words_last(s: Seq<char>)
    ensures
        s.len() > 0 && !is_whitespace(s.last()) ==> words(s).len() > 0,
    decreases s.len(),
{
    if s.len() > 0 {
        lemma_words_last(s.drop_last());
    }
}

/// A character that is not whitespace gives `s` a word.
proof fn lemma_words_nonempty(s: Seq<char>, k: int)
    requires
        0 <= k < s.len(),
        !is_whitespace(s[k]),
    ensures
        words(s).len() > 0,
    decreases s.len(),
{
    lemma_words_last(s);
    if k < s.len() - 1 && is_whitespace(s.last()) {
        lemma_words_nonempty(s.drop_last(), k);
    }
}

/// A run without whitespace is one word.
proof fn lemma_words_single(s: Seq<char>)
    requires
        s.len() > 0,
        forall|i: int| 0 <= i < s.len() ==> !is_whitespace(#[trigger] s[i]),
    ensures
        words(s) == seq![s],
    decreases s.len(),
{
    if s.len() == 1 {
        assert(s.drop_last().len() == 0);
        assert(words(s.drop_last()) =~= Seq::<Seq<char>>::empty());
        assert(seq![s.last()] =~= s);
    } else {
        lemma_words_single(s.drop_last());
        assert(s.drop_last().push(s.last()) =~= s);
        assert(s[s.len() - 2] == s.drop_last().last());
    }
}

/// A whitespace character splits the words: the words of `x`, a space and `y`
/// are the words of `x` followed by those of `y`.
proof fn lemma_words_split(x: Seq<char>, y: Seq<char>)
    ensures
        words(x + seq![' '] + y) == words(x) + words(y),
    decreases y.len(),
{
    let xs = x + seq![' '];
    assert(is_whitespace(' '));
    if y.len() == 0 {
        assert(xs + y =~= xs);
        assert(xs.drop_last() =~= x);
        assert(words(y) =~= Seq::<Seq<char>>::empty());
        assert(words(x) + words(y) =~= words(x));
    } else {
        let yp = y.drop_last();
        let c = y.last();
        lemma_words_split(x, yp);
        let s = xs + y;
        assert(s.drop_last() =~= xs + yp);
        assert(s.last() == c);
        let wx = words(x);
        let wy = words(yp);
        if is_whitespace(c) {
        } else if yp.len() > 0 && !is_whitespace(yp.last()) {
            assert(s[s.len() - 2] == yp.last());
            assert(y[y.len() - 2] == yp.last());
            lemma_words_last(yp);
            assert((wx + wy).update((wx + wy).len() - 1, (wx + wy).last().push(c)) =~= wx + wy.update(
                wy.len() - 1,
                wy.last().push(c),
            ));
        } else {
            if yp.len() > 0 {
                assert(s[s.len() - 2] == yp.last());
                assert(y[y.len() - 2] == yp.last());
            } else {
                assert(s[s.len() - 2] == ' ');
            }
            assert((wx + wy).push(seq![c]) =~= wx + wy.push(seq![c]));
        }
    }
}

/// Joining two non-empty lists of words is joining each, with a space between.
proof fn lemma_join_words_concat(x: Seq<Seq<char>>, y: Seq<Seq<char>>)
    requires
        x.len() > 0,
        y.len() > 0,
    ensures
        join_words(x + y) == join_words(x) + " "@ + join_words(y),
    decreases y.len(),
{
    if y.len() == 1 {
        assert((x + y).drop_last() =~= x);
    } else {
        lemma_join_words_concat(x, y.drop_last());
        assert((x + y).drop_last() =~= x + y.drop_last());
    }
}

/// A layout name that is one word (no whitespace, no dash) is shown with its
/// first character upper-cased and every other character as it is.
pub proof fn law_one_word_name_gets_a_capital(name: Seq<char>)
    requires
        name.len() > 0,
        forall|i: int| 0 <= i < name.len() ==> !is_whitespace(#[trigger] name[i]) && name[i] != '-',
    ensures
        display_name_spec(name) == uppercase(name[0]) + name.subrange(1, name.len() as int),
{
    let d = dashes_to_spaces(name);
    assert(d =~= name);
    lemma_words_single(name);
    let caps = words(d).map_values(|w: Seq<char>| capitalized(w));
    assert(caps =~= seq![capitalized(name)]);
    assert(name.drop_first() =~= name.subrange(1, name.len() as int));
}

/// A dash separates words: the label of `a-b` is the label of `a`, a space,
/// and the label of `b`, when both sides start with a character that is
/// neither whitespace nor a dash.
pub proof fn law_dash_separates_words(a: Seq<char>, b: Seq<char>)
    requires
        a.len() > 0,
        b.len() > 0,
        !is_whitespace(a[0]) && a[0] != '-',
        !is_whitespace(b[0]) && b[0] != '-',
    ensures
        display_name_spec(a + seq!['-'] + b) == display_name_spec(a) + " "@ + display_name_spec(b),
{
    let da = dashes_to_spaces(a);
    let db = dashes_to_spaces(b);
    assert(dashes_to_spaces(a + seq!['-'] + b) =~= da + seq![' '] + db);
    lemma_words_split(da, db);
    assert(da[0] == a[0]);
    assert(db[0] == b[0]);
    lemma_words_nonempty(da, 0);
    lemma_words_nonempty(db, 0);
    let f = |w: Seq<char>| capitalized(w);
    let wa = words(da);
    let wb = words(db);
    assert((wa + wb).map_values(f) =~= wa.map_values(f) + wb.map_values(f));
    lemma_join_words_concat(wa.map_values(f), wb.map_values(f));
}

/// `name` with every `-` turned into a space.
pub open spec fn dashes_to_spaces(name: Seq<char>) -> Seq<char> {
    name.map_values(|c: char| if c == '-' { ' ' } else { c })
}

/// A word with its first character upper-cased.
pub open spec fn capitalized(w: Seq<char>) -> Seq<char> {
    if w.len() == 0 {
        w
    } else {
        uppercase(w[0]) + w.drop_first()
    }
}

/// `parts` joined with single spaces.
pub open spec fn join_words(parts: Seq<Seq<char>>) -> Seq<char>
    decreases parts.len(),
{
    if parts.len() == 0 {
        Seq::empty()
    } else if parts.len() == 1 {
        parts[0]
    } else {
        join_words(parts.drop_last()) + " "@ + parts.last()
    }
}

/// The label of a layout in the menu: dashes become spaces, and each word is
/// capitalized; words are joined by single spaces.
pub open spec fn display_name_spec(name: Seq<char>) -> Seq<char> {
    join_words(words(dashes_to_spaces(name)).map_values(|w: Seq<char>| capitalized(w)))
}

/// The words of `s`.
fn split_words(s: &Vec<char>) -> (ws: Vec<Vec<char>>)
    ensures
        ws@.map_values(|w: Vec<char>| w@) == words(s@),
{
    let mut ws: Vec<Vec<char>> = Vec::new();
    let mut i: usize = 0;
    while i < s.len()
        invariant
            0 <= i <= s@.len(),
            ws@.map_values(|w: Vec<char>| w@) == words(s@.take(i as int)),
        decreases s@.len() - i,
    {
        let ghost t = s@.take(i + 1);
        assert(t.drop_last() =~= s@.take(i as int));
        proof {
            lemma_words_last(s@.take(i as int));
        }
        let c = s[i];
        let ghost before = ws@.map_values(|w: Vec<char>| w@);
        if whitespace(c) {
        } else if i >= 1 && !whitespace(s[i - 1]) {
            assert(s@.take(i as int).last() == s@[i - 1]);
            let mut last = ws.pop().unwrap();
            last.push(c);
            ws.push(last);
            assert(ws@.map_values(|w: Vec<char>| w@) =~= before.update(before.len() - 1, before.last().push(c)));
        } else {
            let mut w: Vec<char> = Vec::new();
            w.push(c);
            ws.push(w);
            assert(ws@.map_values(|w: Vec<char>| w@) =~= before.push(seq![c]));
        }
        i = i + 1;
    }
    assert(s@.take(i as int) =~= s@);
    ws
}

/// The menu label of a layout, e.g. `"4-column-dev"` gives `"4 Column Dev"`.
pub fn display_name(name: &str) -> (label: String)
    ensures
        label@ == display_name_spec(name@),
{
    let cs = chars_of(name);
    let mut spaced: Vec<char> = Vec::new();
    let mut i: usize = 0;
    while i < cs.len()
        invariant
            cs@ == name@,
            0 <= i <= cs@.len(),
            spaced@ == dashes_to_spaces(name@).take(i as int),
        decreases cs@.len() - i,
    {
        let c = cs[i];
        spaced.push(if c == '-' { ' ' } else { c });
        assert(spaced@ =~= dashes_to_spaces(name@).take(i + 1));
        i = i + 1;
    }
    assert(spaced@ =~= dashes_to_spaces(name@));
    let ws = split_words(&spaced);
    let ghost caps = words(dashes_to_spaces(name@)).map_values(|w: Seq<char>| capitalized(w));
    let mut label = String::new();
    let mut k: usize = 0;
    while k < ws.len()
        invariant
            ws@.map_values(|w: Vec<char>| w@) == words(dashes_to_spaces(name@)),
            caps == words(dashes_to_spaces(name@)).map_values(|w: Seq<char>| capitalized(w)),
            0 <= k <= ws@.len(),
            label@ == join_words(caps.take(k as int)),
        decreases ws@.len() - k,
    {
        assert(caps.take(k + 1).drop_last() =~= caps.take(k as int));
        let w = &ws[k];
        assert(w@ == words(dashes_to_spaces(name@))[k as int]);
        let ghost before = label@;
        if k > 0 {
            label.append(" ");
        }
        let mut word = String::new();
        if w.len() > 0 {
            let up = to_uppercase(w[0]);
            word.append(up.as_str());
            let mut j: usize = 1;
            while j < w.len()
                invariant
                    1 <= j <= w@.len(),
                    word@ == uppercase(w@[0]) + w@.subrange(1, j as int),
                decreases w@.len() - j,
            {
                push_char(&mut word, w[j]);
                assert(w@.subrange(1, j + 1) =~= w@.subrange(1, j as int).push(w@[j as int]));
                j = j + 1;
            }
            assert(w@.subrange(1, w@.len() as int) =~= w@.drop_first());
        }
        assert(word@ =~= capitalized(w@));
        label.append(word.as_str());
        if k == 0 {
            assert(label@ =~= join_words(caps.take(1)));
        }
        k = k + 1;
    }
    assert(caps.take(k as int) =~= caps);
    label
}

/// One entry of the tray menu.
#[derive(Debug)]
pub enum MenuEntry {
    Item { id: String, label: String },
    Separator,
}

/// `e` is the item with this id and label.
pub open spec fn is_item(e: MenuEntry, id: Seq<char>, label: Seq<char>) -> bool {
    e matches MenuEntry::Item { id: i, label: l } && i@ == id && l@ == label
}

/// Label of the start-with-Windows toggle, with a check mark when enabled.
pub open spec fn startup_label(enabled: bool) -> Seq<char> {
    if enabled {
        "Start with Windows \u{2713}"@
    } else {
        "Start with Windows"@
    }
}

fn item(id: &str, label: &str) -> (e: MenuEntry)
    ensures
        is_item(e, id@, label@),
{
    MenuEntry::Item { id: String::from_str(id), label: String::from_str(label) }
}

/// The tray menu: one item per layout, sorted by layout name, with id
/// `layout_{name}` and the layout's display name as label; then a separator,
/// Edit Config, Reload Config, a separator, the start-with-Windows toggle, a
/// separator and Quit.
pub fn menu_entries(config: &Config, startup_enabled: bool) -> (entries: Vec<MenuEntry>)
    requires
        config.well_formed(),
    ensures
        entries@.len() == config.layouts@.len() + 7,
        exists|names: Seq<Seq<char>>|
            {
                &&& names.len() == config.layouts@.len()
                &&& sorted_text(names)
                &&& names.to_multiset() =~= config.layouts@.map_values(
                    |l: (String, Layout)| l.0@,
                ).to_multiset()
                &&& forall|i: int|
                    0 <= i < names.len() ==> is_item(
                        #[trigger] entries@[i],
                        "layout_"@ + names[i],
                        display_name_spec(names[i]),
                    )
            },
        entries@[config.layouts@.len() as int] is Separator,
        is_item(entries@[config.layouts@.len() as int + 1], "edit_config"@, "Edit Config"@),
        is_item(entries@[config.layouts@.len() as int + 2], "reload_config"@, "Reload Config"@),
        entries@[config.layouts@.len() as int + 3] is Separator,
        is_item(entries@[config.layouts@.len() as int + 4], "toggle_startup"@, startup_label(startup_enabled)),
        entries@[config.layouts@.len() as int + 5] is Separator,
        is_item(entries@[config.layouts@.len() as int + 6], "quit"@, "Quit"@),
{
    broadcast use vstd::seq_lib::group_to_multiset_ensures;

    let ghost all_names = config.layouts@.map_values(|l: (String, Layout)| l.0@);
    let mut names: Vec<String> = Vec::new();
    let mut k: usize = 0;
    while k < config.layouts.len()
        invariant
            0 <= k <= config.layouts@.len(),
            all_names == config.layouts@.map_values(|l: (String, Layout)| l.0@),
            texts(names@) == all_names.take(k as int),
        decreases config.layouts@.len() - k,
    {
        let ghost before = texts(names@);
        names.push(config.layouts[k].0.clone());
        assert(all_names[k as int] == config.layouts@[k as int].0@);
        assert(texts(names@) =~= before.push(all_names[k as int]));
        assert(all_names.take(k + 1) =~= all_names.take(k as int).push(all_names[k as int]));
        k = k + 1;
    }
    assert(all_names.take(k as int) =~= all_names);
    let sorted = sort_strings(names);
    assert(texts(sorted@).len() == sorted@.len());
    assert(texts(sorted@).to_multiset().len() == all_names.to_multiset().len());
    let mut entries: Vec<MenuEntry> = Vec::new();
    let mut i: usize = 0;
    while i < sorted.len()
        invariant
            0 <= i <= sorted@.len(),
            entries@.len() == i,
            forall|j: int|
                0 <= j < i ==> is_item(
                    #[trigger] entries@[j],
                    "layout_"@ + texts(sorted@)[j],
                    display_name_spec(texts(sorted@)[j]),
                ),
        decreases sorted@.len() - i,
    {
        let name = &sorted[i];
        let mut id = String::from_str("layout_");
        id.append(name.as_str());
        let label = display_name(name.as_str());
        entries.push(MenuEntry::Item { id, label });
        i = i + 1;
    }
    let n = entries.len();
    entries.push(MenuEntry::Separator);
    entries.push(item("edit_config", "Edit Config"));
    entries.push(item("reload_config", "Reload Config"));
    entries.push(MenuEntry::Separator);
    let startup = if startup_enabled {
        item("toggle_startup", "Start with Windows \u{2713}")
    } else {
        item("toggle_startup", "Start with Windows")
    };
    entries.push(startup);
    entries.push(MenuEntry::Separator);
    entries.push(item("quit", "Quit"));
    assert(forall|j: int|
        0 <= j < texts(sorted@).len() ==> is_item(
            #[trigger] entries@[j],
            "layout_"@ + texts(sorted@)[j],
            display_name_spec(texts(sorted@)[j]),
        ));
    entries
}

/// What a click on a menu entry asks for.
#[derive(Debug)]
pub enum MenuAction {
    Quit,
    EditConfig,
    ReloadConfig,
    ToggleStartup,
    /// Apply the layout with this name.
    ApplyLayout(String),
    /// Nothing: an id that names no entry or no layout.
    Ignore,
}

/// The first layout named `name`, or -1.
pub open spec fn layout_position(layouts: Seq<(String, Layout)>, name: Seq<char>) -> int
    decreases layouts.len(),
{
    if layouts.len() == 0 {
        -1
    } else {
        let earlier = layout_position(layouts.drop_last(), name);
        if earlier >= 0 {
            earlier
        } else if layouts.last().0@ == name {
            layouts.len() - 1
        } else {
            -1
        }
    }
}

proof fn lemma_layout_position(layouts: Seq<(String, Layout)>, name: Seq<char>)
    ensures
        -1 <= layout_position(layouts, name) < layouts.len(),
        layout_position(layouts, name) >= 0 ==> layouts[layout_position(layouts, name)].0@ == name,
        layout_position(layouts, name) == -1 ==> forall|k: int|
            0 <= k < layouts.len() ==> (#[trigger] layouts[k]).0@ != name,
    decreases layouts.len(),
{
    if layouts.len() > 0 {
        lemma_layout_position(layouts.drop_last(), name);
        assert forall|k: int| 0 <= k < layouts.len() - 1 implies #[trigger] layouts[k] == layouts.drop_last()[k] by {}
    }
}

impl Config {
    /// Position of the layout named `name`, if there is one (the first, should
    /// two share the name).
    pub fn layout_index(&self, name: &str) -> (found: Option<usize>)
        requires
            self.well_formed(),
        ensures
            match found {
                Some(k) => k == layout_position(self.layouts@, name@),
                None => layout_position(self.layouts@, name@) == -1,
            },
    {
        let mut k: usize = 0;
        while k < self.layouts.len()
            invariant
                0 <= k <= self.layouts@.len(),
                layout_position(self.layouts@.take(k as int), name@) == -1,
            decreases self.layouts@.len() - k,
        {
            assert(self.layouts@.take(k + 1).drop_last() =~= self.layouts@.take(k as int));
            if self.layouts[k].0 == String::from_str(name) {
                proof {
                    lemma_layout_position(self.layouts@, name@);
                    lemma_layout_position_prefix(self.layouts@, name@, k + 1);
                }
                return Some(k);
            }
            k = k + 1;
        }
        assert(self.layouts@.take(k as int) =~= self.layouts@);
        None
    }
}

proof fn lemma_layout_position_prefix(layouts: Seq<(String, Layout)>, name: Seq<char>, j: int)
    requires
        0 <= j <= layouts.len(),
        layout_position(layouts.take(j), name) >= 0,
    ensures
        layout_position(layouts, name) == layout_position(layouts.take(j), name),
    decreases layouts.len(),
{
    if j == layouts.len() {
        assert(layouts.take(j) =~= layouts);
    } else {
        assert(layouts.take(j) =~= layouts.drop_last().take(j));
        lemma_layout_position_prefix(layouts.drop_last(), name, j);
    }
}

/// The action a click on the entry `id` asks for: the four fixed entries by
/// their ids, `layout_{name}` for a layout that exists, anything else nothing.
pub open spec fn menu_action_spec(id: Seq<char>, layouts: Seq<(String, Layout)>) -> MenuAction {
    if id == "quit"@ {
        MenuAction::Quit
    } else if id == "edit_config"@ {
        MenuAction::EditConfig
    } else if id == "reload_config"@ {
        MenuAction::ReloadConfig
    } else if id == "toggle_startup"@ {
        MenuAction::ToggleStartup
    } else if id.len() >= 7 && id.take(7) == "layout_"@ && layout_position(layouts, id.skip(7)) >= 0 {
        MenuAction::ApplyLayout(layouts[layout_position(layouts, id.skip(7))].0)
    } else {
        MenuAction::Ignore
    }
}

/// Decide what a click on the menu entry `id` asks for.
pub fn menu_action(id: &str, config: &Config) -> (action: MenuAction)
    requires
        config.well_formed(),
    ensures
        match (action, menu_action_spec(id@, config.layouts@)) {
            (MenuAction::ApplyLayout(a), MenuAction::ApplyLayout(b)) => a@ == b@,
            (a, b) => a == b,
        },
{
    let owned = String::from_str(id);
    proof {
        lemma_layout_position(config.layouts@, id@.skip(7));
    }
    if owned == String::from_str("quit") {
        return MenuAction::Quit;
    }
    if owned == String::from_str("edit_config") {
        return MenuAction::EditConfig;
    }
    if owned == String::from_str("reload_config") {
        return MenuAction::ReloadConfig;
    }
    if owned == String::from_str("toggle_startup") {
        return MenuAction::ToggleStartup;
    }
    let cs = chars_of(id);
    let prefix = chars_of("layout_");
    proof {
        reveal_strlit("layout_");
    }
    if cs.len() < 7 {
        assert(!(id@.len() >= 7));
        return MenuAction::Ignore;
    }
    let mut j: usize = 0;
    while j < 7
        invariant
            cs@ == id@,
            prefix@ == "layout_"@,
            prefix@.len() == 7,
            cs@.len() >= 7,
            0 <= j <= 7,
            id@ != "quit"@ && id@ != "edit_config"@ && id@ != "reload_config"@ && id@
                != "toggle_startup"@,
            forall|m: int| 0 <= m < j ==> cs@[m] == prefix@[m],
        decreases 7 - j,
    {
        if cs[j] != prefix[j] {
            assert(id@.take(7)[j as int] != "layout_"@[j as int]);
            assert(id@.take(7) != "layout_"@);
            assert(menu_action_spec(id@, config.layouts@) == MenuAction::Ignore);
            return MenuAction::Ignore;
        }
        j = j + 1;
    }
    assert(id@.take(7) =~= "layout_"@);
    let mut rest: Vec<char> = Vec::new();
    let mut k: usize = 7;
    while k < cs.len()
        invariant
            cs@ == id@,
            7 <= k <= cs@.len(),
            rest@ == id@.subrange(7, k as int),
        decreases cs@.len() - k,
    {
        rest.push(cs[k]);
        assert(rest@ =~= id@.subrange(7, k + 1));
        k = k + 1;
    }
    assert(rest@ =~= id@.skip(7));
    let name = crate::text::string_of(&rest);
    proof {
        lemma_layout_position(config.layouts@, name@);
    }
    match config.layout_index(name.as_str()) {
        Some(idx) => MenuAction::ApplyLayout(config.layouts[idx].0.clone()),
        None => MenuAction::Ignore,
    }
}

} // verus!
