use vstd::prelude::*;

verus! {

/// Space kept free above an icon's drawing area, in pixels.
pub const ICON_PADDING_TOP: i32 = 20;
/// Space kept free left of an icon's drawing area, in pixels.
pub const ICON_PADDING_LEFT: i32 = 40;
/// Space kept free right of an icon's drawing area, in pixels.
pub const ICON_PADDING_RIGHT: i32 = 40;
/// Space kept free below an icon's drawing area, in pixels.
pub const ICON_PADDING_BOTTOM: i32 = 35;

/// A rectangle in window coordinates: lower-left corner, width and height.
#[derive(Debug, Clone, Copy, PartialEq, Eq, Structural)]
pub struct AreaRect {
    pub x: i32,
    pub y: i32,
    pub width: i32,
    pub height: i32,
}

/// The scissor rectangle of the icon cell whose lower-left corner is at
/// `(x, y)` and whose side is `size`: the cell shrunk by the paddings.
pub fn icon_area(x: i32, y: i32, size: i32) -> (r: AreaRect)
    requires
        x + ICON_PADDING_LEFT <= i32::MAX,
        y + ICON_PADDING_BOTTOM <= i32::MAX,
        size - ICON_PADDING_RIGHT - ICON_PADDING_LEFT >= i32::MIN,
        size - ICON_PADDING_TOP - ICON_PADDING_BOTTOM >= i32::MIN,
    ensures
        r.x == x + ICON_PADDING_LEFT,
        r.y == y + ICON_PADDING_BOTTOM,
        r.width == size - ICON_PADDING_RIGHT - ICON_PADDING_LEFT,
        r.height == size - ICON_PADDING_TOP - ICON_PADDING_BOTTOM,
{
    AreaRect {
        x: x + ICON_PADDING_LEFT,
        y: y + ICON_PADDING_BOTTOM,
        width: size - ICON_PADDING_RIGHT - ICON_PADDING_LEFT,
        height: size - ICON_PADDING_TOP - ICON_PADDING_BOTTOM,
    }
}

/// The key that introduces an icon path in a desktop file: `Icon=`.
pub open spec fn icon_key() -> Seq<char> {
    seq!['I', 'c', 'o', 'n', '=']
}

/// The icon path that the line `line` gives, where it starts with `Icon=`.
pub open spec fn icon_value(line: Seq<char>) -> Option<Seq<char>> {
    if line.len() >= 5 && line.take(5) == icon_key() {
        Some(line.skip(5))
    } else {
        None
    }
}

/// What a desktop entry holds: the name of its file and its icon's path.
pub struct EntryView {
    pub label: Seq<char>,
    pub icon_path: Seq<char>,
}

/// The entries that the lines `lines` of the desktop file named `label`
/// give: one for each line that starts with `Icon=`, in the order of the lines.
pub open spec fn icon_entries(label: Seq<char>, lines: Seq<Seq<char>>) -> Seq<EntryView>
    decreases lines.len(),
{
    if lines.len() == 0 {
        Seq::empty()
    } else {
        let prev = icon_entries(label, lines.drop_last());
        match icon_value(lines.last()) {
            Some(v) => prev.push(EntryView { label, icon_path: v }),
            None => prev,
        }
    }
}

/// An icon on the desktop: the name of the desktop file that declares it,
/// and the path of its image.
#[derive(Debug)]
pub struct DesktopEntry {
    label: String,
    icon_path: String,
}

impl View for DesktopEntry {
    type V = EntryView;

    closed spec fn view(&self) -> EntryView {
        EntryView { label: self.label@, icon_path: self.icon_path@ }
    }
}

impl DesktopEntry {
    /// The entry of the desktop file named `label` whose icon is at `icon_path`.
    pub fn new(label: String, icon_path: String) -> (r: DesktopEntry)
        ensures
            r@.label == label@,
            r@.icon_path == icon_path@,
    {
        DesktopEntry { label, icon_path }
    }

    /// The name of the desktop file that declares this entry.
    pub fn label(&self) -> (r: &String)
        ensures
            r@ == self@.label,
    {
        &self.label
    }

    /// The path of this entry's icon.
    pub fn icon_path(&self) -> (r: &String)
        ensures
            r@ == self@.icon_path,
    {
        &self.icon_path
    }
}

/// The icon path that `line` gives, where it starts with `Icon=`: the rest of
/// the line after that key.
pub fn icon_path_of_line(line: &str) -> (r: Option<String>)
    ensures
        r matches Some(p) ==> icon_value(line@) == Some(p@),
        r is None <==> icon_value(line@) is None,
{
    let n = line.unicode_len();
    if n >= 5 && line.get_char(0) == 'I' && line.get_char(1) == 'c' && line.get_char(2) == 'o'
        && line.get_char(3) == 'n' && line.get_char(4) == '=' {
        assert(line@.take(5) =~= icon_key());
        Some(line.substring_char(5, n).to_owned())
    } else {
        proof {
            if n >= 5 && line@.take(5) == icon_key() {
                assert(line@[0] == line@.take(5)[0]);
                assert(line@[1] == line@.take(5)[1]);
                assert(line@[2] == line@.take(5)[2]);
                assert(line@[3] == line@.take(5)[3]);
                assert(line@[4] == line@.take(5)[4]);
            }
        }
        None
    }
}

/// The entries that the lines of the desktop file named `label` declare: one
/// per line that starts with `Icon=`, in order, each labelled with the name of
/// the file.
pub fn entries_from_lines(label: &str, lines: &Vec<String>) -> (r: Vec<DesktopEntry>)
    ensures
        r@.map_values(|e: DesktopEntry| e@) == icon_entries(label@, lines.deep_view()),
{
    let ghost lv = lines.deep_view();
    let mut out: Vec<DesktopEntry> = Vec::new();
    let mut i: usize = 0;
    assert(lv.take(0) =~= Seq::<Seq<char>>::empty());
    assert(out@.map_values(|e: DesktopEntry| e@) =~= Seq::<EntryView>::empty());
    while i < lines.len()
        invariant
            lv == lines.deep_view(),
            i <= lines.len(),
            out@.map_values(|e: DesktopEntry| e@) == icon_entries(label@, lv.take(i as int)),
        decreases lines.len() - i,
    {
        assert(lv.take(i + 1).drop_last() =~= lv.take(i as int));
        assert(lv.take(i + 1).last() == lines@[i as int]@);
        let ghost before = out@;
        match icon_path_of_line(lines[i].as_str()) {
            Some(p) => {
                let entry = DesktopEntry::new(label.to_owned(), p);
                out.push(entry);
                assert(out@.map_values(|e: DesktopEntry| e@) =~= before.map_values(
                    |e: DesktopEntry| e@,
                ).push(entry@));
            },
            None => {},
        }
        i = i + 1;
    }
    assert(lv.take(lines.len() as int) =~= lv);
    out
}

/// Every entry that a desktop file declares is labelled with the file's name.
pub proof fn lemma_entries_labelled(label: Seq<char>, lines: Seq<Seq<char>>)
    ensures
        forall|i: int|
            0 <= i < icon_entries(label, lines).len() ==> (#[trigger] icon_entries(
                label,
                lines,
            )[i]).label == label,
    decreases lines.len(),
{
    if lines.len() > 0 {
        let prev = icon_entries(label, lines.drop_last());
        lemma_entries_labelled(label, lines.drop_last());
        assert forall|i: int| 0 <= i < icon_entries(label, lines).len() implies (#[trigger] icon_entries(
            label,
            lines,
        )[i]).label == label by {
            if i < prev.len() {
                assert(icon_entries(label, lines)[i] == prev[i]);
            }
        }
    }
}

/// Reading a desktop file in two parts gives the entries of the whole file:
/// those of the first part, then those of the second.
pub proof fn lemma_entries_concat(label: Seq<char>, a: Seq<Seq<char>>, b: Seq<Seq<char>>)
    ensures
        icon_entries(label, a + b) == icon_entries(label, a) + icon_entries(label, b),
    decreases b.len(),
{
    if b.len() == 0 {
        assert(a + b =~= a);
        assert(icon_entries(label, a) + icon_entries(label, b) =~= icon_entries(label, a));
    } else {
        lemma_entries_concat(label, a, b.drop_last());
        assert((a + b).drop_last() =~= a + b.drop_last());
        assert((a + b).last() == b.last());
        match icon_value(b.last()) {
            Some(v) => {
                assert(icon_entries(label, a) + icon_entries(label, b) =~= (icon_entries(label, a)
                    + icon_entries(label, b.drop_last())).push(EntryView { label, icon_path: v }));
            },
            None => {},
        }
    }
}

/// The desktop directory of the home directory `home`: `home` followed by
/// `/Desktop`.
pub fn desktop_dir(home: &str) -> (r: String)
    ensures
        r@ == home@ + seq!['/', 'D', 'e', 's', 'k', 't', 'o', 'p'],
{
    let mut r = home.to_owned();
    r.append("/Desktop");
    proof {
        reveal_strlit("/Desktop");
        assert("/Desktop"@ =~= seq!['/', 'D', 'e', 's', 'k', 't', 'o', 'p']);
    }
    r
}

/// A line gives an icon path exactly when its first five characters are
/// `I`, `c`, `o`, `n`, `=`; the path is then everything after them, so it is
/// five characters shorter than the line. A key such as `Icon[de]=` gives none.
pub proof fn lemma_icon_value_exact(line: Seq<char>)
    ensures
        icon_value(line) is Some <==> (line.len() >= 5 && line[0] == 'I' && line[1] == 'c' && line[2]
            == 'o' && line[3] == 'n' && line[4] == '='),
        icon_value(line) matches Some(v) ==> v == line.subrange(5, line.len() as int) && v.len() + 5
            == line.len(),
{
    if line.len() >= 5 && line[0] == 'I' && line[1] == 'c' && line[2] == 'o' && line[3] == 'n'
        && line[4] == '=' {
        assert(line.take(5) =~= icon_key());
    }
    if line.len() >= 5 && line.take(5) == icon_key() {
        assert(line[0] == line.take(5)[0]);
        assert(line[1] == line.take(5)[1]);
        assert(line[2] == line.take(5)[2]);
        assert(line[3] == line.take(5)[3]);
        assert(line[4] == line.take(5)[4]);
    }
}

/// The line begins with the five characters `I`, `c`, `o`, `n`, `=`.
pub open spec fn begins_with_icon_key(line: Seq<char>) -> bool {
    line.len() >= 5 && line[0] == 'I' && line[1] == 'c' && line[2] == 'o' && line[3] == 'n'
        && line[4] == '='
}

/// The entry `e` comes from the line `line`: the line begins with `Icon=`,
/// the entry's icon path is the rest of the line, and its label is `label`.
pub open spec fn entry_from_line(e: EntryView, line: Seq<char>, label: Seq<char>) -> bool {
    begins_with_icon_key(line) && e.icon_path == line.subrange(5, line.len() as int) && e.label
        == label
}

/// Every entry of a desktop file comes from one of its lines that starts with
/// `Icon=`: its icon path is the rest of that line, and its label is the name
/// of the file.
pub proof fn lemma_entries_from_icon_lines(label: Seq<char>, lines: Seq<Seq<char>>)
    ensures
        forall|k: int|
            0 <= k < icon_entries(label, lines).len() ==> exists|j: int|
                0 <= j < lines.len() && entry_from_line(
                    #[trigger] icon_entries(label, lines)[k],
                    #[trigger] lines[j],
                    label,
                ),
    decreases lines.len(),
{
    if lines.len() > 0 {
        let prev_lines = lines.drop_last();
        let prev = icon_entries(label, prev_lines);
        lemma_entries_from_icon_lines(label, prev_lines);
        lemma_icon_value_exact(lines.last());
        assert forall|k: int| 0 <= k < icon_entries(label, lines).len() implies exists|j: int|
            0 <= j < lines.len() && entry_from_line(
                #[trigger] icon_entries(label, lines)[k],
                #[trigger] lines[j],
                label,
            ) by {
            if k < prev.len() {
                assert(icon_entries(label, lines)[k] == prev[k]);
                let j = choose|j: int|
                    0 <= j < prev_lines.len() && entry_from_line(
                        #[trigger] prev[k],
                        #[trigger] prev_lines[j],
                        label,
                    );
                assert(lines[j] == prev_lines[j]);
            } else {
                let j = lines.len() - 1;
                assert(lines[j] == lines.last());
                assert(entry_from_line(icon_entries(label, lines)[k], lines[j], label));
            }
        }
    }
}

} // verus!
