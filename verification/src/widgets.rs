//! Small shared state and wording of the culling views.

use vstd::prelude::*;

use crate::db::{setting, setting_stored, Db, KvRow};
use crate::model::{label_code, Label};
use crate::text::{concat, decimal, decimal_chars, decimals_are_digits, from_chars, str_is};

verus! {

/// Name of the setting behind the auto-advance toggle.
pub const AUTO_ADVANCE_KEY: &'static str = "auto_advance";

/// Name of the setting behind the export mode.
pub const EXPORT_MODE_KEY: &'static str = "export_mode";

/// Diameter of a label dot in the loupe.
pub const SWATCH_DIAMETER: u32 = 15;

/// Gap between label dots, and padding at both ends.
pub const SWATCH_GAP: u32 = 7;

/// Width of the strip of six label dots.
pub const SWATCH_STRIP_WIDTH: u32 = 6 * SWATCH_DIAMETER + 7 * SWATCH_GAP;

/// Mask bit of the unlabeled photos.
const UNLABELED_BIT: u8 = 1;

/// Mask bits of the five colors.
const LABELED_MASK: u8 = 62;

/// Which labels a folder is narrowed to. Nothing chosen means that every
/// photo is shown.
#[derive(Clone, Copy, Debug, PartialEq, Eq)]
pub struct LabelFilter {
    mask: u8,
}

/// Whether the bit of a label is set.
spec fn has_bit(mask: u8, label: Label) -> bool {
    mask & (1u8 << label_code(label)) != 0
}

impl View for LabelFilter {
    type V = Set<Label>;

    /// The chosen labels.
    closed spec fn view(&self) -> Set<Label> {
        Set::new(|label: Label| has_bit(self.mask, label))
    }
}

/// The five colors.
pub open spec fn colors() -> Set<Label> {
    Set::new(|label: Label| label != Label::Unlabeled)
}

/// The photos a choice of labels shows.
pub open spec fn shows(chosen: Set<Label>, label: Label) -> bool {
    chosen == Set::<Label>::empty() || chosen.contains(label)
}

/// One label's chip flipped.
pub open spec fn flipped(chosen: Set<Label>, label: Label) -> Set<Label> {
    if chosen.contains(label) {
        chosen.remove(label)
    } else {
        chosen.insert(label)
    }
}

/// The preset after this choice: the colors come after the unlabeled photos'
/// preset only by way of showing everything; any mix leads to the colors.
pub open spec fn next_preset(chosen: Set<Label>) -> Set<Label> {
    if chosen == set![Label::Unlabeled] {
        Set::empty()
    } else if chosen == colors() {
        set![Label::Unlabeled]
    } else {
        colors()
    }
}

proof fn lemma_bits(mask: u8, a: u8, b: u8)
    requires
        a < 6,
        b < 6,
    ensures
        ((mask ^ (1u8 << a)) & (1u8 << b) != 0) == ((mask & (1u8 << b) != 0) != (a == b)),
        mask < 64 ==> (mask ^ (1u8 << a)) < 64,
{
    assert(((mask ^ (1u8 << a)) & (1u8 << b) != 0) == ((mask & (1u8 << b) != 0) != (a == b))) by (bit_vector)
        requires
            a < 6,
            b < 6,
    ;
    assert(mask < 64 ==> (mask ^ (1u8 << a)) < 64) by (bit_vector)
        requires
            a < 6,
    ;
}

proof fn lemma_masks(mask: u8)
    requires
        mask < 64,
    ensures
        mask == 0 <==> (mask & (1u8 << 0u8) == 0 && mask & (1u8 << 1u8) == 0 && mask & (1u8 << 2u8) == 0 && mask & (1u8
            << 3u8) == 0 && mask & (1u8 << 4u8) == 0 && mask & (1u8 << 5u8) == 0),
        mask == 1 <==> (mask & (1u8 << 0u8) != 0 && mask & (1u8 << 1u8) == 0 && mask & (1u8 << 2u8) == 0 && mask & (1u8
            << 3u8) == 0 && mask & (1u8 << 4u8) == 0 && mask & (1u8 << 5u8) == 0),
        mask == 62 <==> (mask & (1u8 << 0u8) == 0 && mask & (1u8 << 1u8) != 0 && mask & (1u8 << 2u8) != 0 && mask & (1u8
            << 3u8) != 0 && mask & (1u8 << 4u8) != 0 && mask & (1u8 << 5u8) != 0),
{
    assert(mask == 0 <==> (mask & (1u8 << 0u8) == 0 && mask & (1u8 << 1u8) == 0 && mask & (1u8 << 2u8) == 0 && mask & (
    1u8 << 3u8) == 0 && mask & (1u8 << 4u8) == 0 && mask & (1u8 << 5u8) == 0)) by (bit_vector)
        requires
            mask < 64,
    ;
    assert(mask == 1 <==> (mask & (1u8 << 0u8) != 0 && mask & (1u8 << 1u8) == 0 && mask & (1u8 << 2u8) == 0 && mask & (
    1u8 << 3u8) == 0 && mask & (1u8 << 4u8) == 0 && mask & (1u8 << 5u8) == 0)) by (bit_vector)
        requires
            mask < 64,
    ;
    assert(mask == 62 <==> (mask & (1u8 << 0u8) == 0 && mask & (1u8 << 1u8) != 0 && mask & (1u8 << 2u8) != 0 && mask & (
    1u8 << 3u8) != 0 && mask & (1u8 << 4u8) != 0 && mask & (1u8 << 5u8) != 0)) by (bit_vector)
        requires
            mask < 64,
    ;
}

proof fn lemma_mask_sets(filter: LabelFilter)
    requires
        filter.mask < 64,
    ensures
        filter.mask == 0 <==> filter@ == Set::<Label>::empty(),
        filter.mask == UNLABELED_BIT <==> filter@ == set![Label::Unlabeled],
        filter.mask == LABELED_MASK <==> filter@ == colors(),
{
    lemma_masks(filter.mask);
    let s = filter@;
    assert(s.contains(Label::Unlabeled) == has_bit(filter.mask, Label::Unlabeled));
    assert(s.contains(Label::Red) == has_bit(filter.mask, Label::Red));
    assert(s.contains(Label::Yellow) == has_bit(filter.mask, Label::Yellow));
    assert(s.contains(Label::Green) == has_bit(filter.mask, Label::Green));
    assert(s.contains(Label::Blue) == has_bit(filter.mask, Label::Blue));
    assert(s.contains(Label::Purple) == has_bit(filter.mask, Label::Purple));
    if filter.mask == 0 {
        assert(s =~= Set::<Label>::empty());
    }
    if filter.mask == UNLABELED_BIT {
        assert(s =~= set![Label::Unlabeled]);
    }
    if filter.mask == LABELED_MASK {
        assert(s =~= colors());
    }
    assert(!Set::<Label>::empty().contains(Label::Red));
    assert(!set![Label::Unlabeled].contains(Label::Red));
    assert(colors().contains(Label::Red));
}

impl LabelFilter {
    #[verifier::type_invariant]
    spec fn six_bits(self) -> bool {
        self.mask < 64
    }

    /// Nothing chosen: every photo is shown.
    pub fn all() -> (filter: Self)
        ensures
            filter@ == Set::<Label>::empty(),
    {
        let filter = LabelFilter { mask: 0 };
        proof {
            lemma_mask_sets(filter);
        }
        filter
    }

    /// Every color chosen: only marked photos are shown.
    pub fn labeled() -> (filter: Self)
        ensures
            filter@ == colors(),
    {
        let filter = LabelFilter { mask: LABELED_MASK };
        proof {
            lemma_mask_sets(filter);
        }
        filter
    }

    /// Only unmarked photos are shown.
    pub fn unlabeled() -> (filter: Self)
        ensures
            filter@ == set![Label::Unlabeled],
    {
        let filter = LabelFilter { mask: UNLABELED_BIT };
        proof {
            lemma_mask_sets(filter);
        }
        filter
    }

    /// Whether nothing is filtered out.
    pub fn is_all(self) -> (r: bool)
        ensures
            r == (self@ == Set::<Label>::empty()),
    {
        proof {
            use_type_invariant(&self);
            lemma_mask_sets(self);
        }
        self.mask == 0
    }

    /// Whether photos with this label are shown.
    pub fn matches(self, label: Label) -> (r: bool)
        ensures
            r == shows(self@, label),
    {
        proof {
            use_type_invariant(&self);
            lemma_mask_sets(self);
        }
        self.mask == 0 || self.mask & (1u8 << label.to_u8()) != 0
    }

    /// Whether the chip of this label is on.
    pub fn is_selected(self, label: Label) -> (r: bool)
        ensures
            r == self@.contains(label),
    {
        proof {
            use_type_invariant(&self);
            lemma_mask_sets(self);
        }
        !self.is_all() && self.mask & (1u8 << label.to_u8()) != 0
    }

    /// Flips the chip of one label.
    pub fn toggle(&mut self, label: Label)
        ensures
            final(self)@ == flipped(old(self)@, label),
    {
        proof {
            use_type_invariant(&*self);
        }
        let ghost before = self.mask;
        let ghost chosen = self@;
        let code: u8 = label.to_u8();
        proof {
            lemma_bits(before, code, 0);
        }
        self.mask = self.mask ^ (1u8 << code);
        proof {
            assert forall|l: Label| self@.contains(l) == flipped(chosen, label).contains(l) by {
                lemma_bits(before, code, label_code(l));
            }
            assert(self@ =~= flipped(chosen, label));
        }
    }

    /// Back to showing everything.
    pub fn clear(&mut self)
        ensures
            final(self)@ == Set::<Label>::empty(),
    {
        self.mask = 0;
        proof {
            lemma_mask_sets(*self);
        }
    }

    /// Steps through everything, marked and unmarked; any other choice steps
    /// to marked.
    pub fn cycle_preset(&mut self)
        ensures
            final(self)@ == next_preset(old(self)@),
    {
        proof {
            use_type_invariant(&*self);
            lemma_mask_sets(*self);
        }
        *self = if self.mask == UNLABELED_BIT {
            LabelFilter::all()
        } else if self.mask == LABELED_MASK {
            LabelFilter::unlabeled()
        } else {
            LabelFilter::labeled()
        };
    }
}

/// Flipping a chip twice changes nothing, and chips do not disturb each other.
pub proof fn chips_toggle_independently(chosen: Set<Label>, a: Label, b: Label)
    ensures
        flipped(flipped(chosen, a), a) == chosen,
        flipped(flipped(chosen, a), b) == flipped(flipped(chosen, b), a),
        a != b ==> flipped(chosen, a).contains(b) == chosen.contains(b),
{
    assert(flipped(flipped(chosen, a), a) =~= chosen);
    assert(flipped(flipped(chosen, a), b) =~= flipped(flipped(chosen, b), a));
}

/// From every choice of chips the preset key reaches a named preset at once,
/// and from there it walks all three in turn.
pub proof fn presets_cycle(chosen: Set<Label>)
    ensures
        next_preset(Set::<Label>::empty()) == colors(),
        next_preset(colors()) == set![Label::Unlabeled],
        next_preset(set![Label::Unlabeled]) == Set::<Label>::empty(),
        next_preset(chosen) == colors() || next_preset(chosen) == set![Label::Unlabeled] || next_preset(chosen)
            == Set::<Label>::empty(),
{
    assert(!Set::<Label>::empty().contains(Label::Unlabeled));
    assert(set![Label::Unlabeled].contains(Label::Unlabeled));
    assert(!colors().contains(Label::Unlabeled));
    assert(colors().contains(Label::Red));
    assert(!Set::<Label>::empty().contains(Label::Red));
}

/// Every photo is either marked or not: the two presets split the folder.
pub proof fn presets_split_the_folder(label: Label)
    ensures
        shows(Set::<Label>::empty(), label),
        shows(colors(), label) != shows(set![Label::Unlabeled], label),
{
    assert(colors().contains(Label::Red));
    assert(!Set::<Label>::empty().contains(Label::Red));
    assert(set![Label::Unlabeled].contains(Label::Unlabeled));
    assert(!Set::<Label>::empty().contains(Label::Unlabeled));
}

/// A chip of the filter bar.
#[derive(Clone, Copy, Debug, PartialEq, Eq, Structural)]
pub enum FilterChip {
    /// Shows everything.
    All,
    /// Flips one label.
    Label(Label),
}

/// Order of the contact sheet.
#[derive(Clone, Copy, Debug, PartialEq, Eq, Structural)]
pub enum SortKey {
    /// By file name, ignoring case.
    FileName,
    /// By capture time; photos without one come last.
    TakenAt,
}

impl Default for SortKey {
    fn default() -> (key: Self)
        ensures
            key == SortKey::FileName,
    {
        SortKey::FileName
    }
}

/// The other order.
pub open spec fn other_order(key: SortKey) -> SortKey {
    match key {
        SortKey::FileName => SortKey::TakenAt,
        SortKey::TakenAt => SortKey::FileName,
    }
}

impl SortKey {
    /// The other order.
    pub fn cycle(self) -> (key: Self)
        ensures
            key == other_order(self),
    {
        match self {
            SortKey::FileName => SortKey::TakenAt,
            SortKey::TakenAt => SortKey::FileName,
        }
    }

    /// Name shown in the sort pill.
    pub fn label(self) -> (name: &'static str)
        ensures
            name@ == (match self {
                SortKey::FileName => "filename"@,
                SortKey::TakenAt => "capture time"@,
            }),
    {
        match self {
            SortKey::FileName => "filename",
            SortKey::TakenAt => "capture time",
        }
    }
}

/// Two steps of the sort pill come back to the same order.
pub proof fn sort_orders_alternate(key: SortKey)
    ensures
        other_order(key) != key,
        other_order(other_order(key)) == key,
{
}

/// Which files of RAW+JPEG pairs an export copies.
#[derive(Clone, Copy, Debug, PartialEq, Eq, Structural)]
pub enum ExportMode {
    /// The RAW and its JPEG.
    All,
    /// Only the RAW.
    RawOnly,
    /// Only the JPEG.
    JpegOnly,
}

impl Default for ExportMode {
    fn default() -> (mode: Self)
        ensures
            mode == ExportMode::All,
    {
        ExportMode::All
    }
}

/// How an export mode is stored.
pub open spec fn mode_text(mode: ExportMode) -> Seq<char> {
    match mode {
        ExportMode::All => "all"@,
        ExportMode::RawOnly => "raw"@,
        ExportMode::JpegOnly => "jpeg"@,
    }
}

/// Which mode a stored text stands for.
pub open spec fn mode_in(text: Seq<char>) -> Option<ExportMode> {
    if text == "all"@ {
        Some(ExportMode::All)
    } else if text == "raw"@ {
        Some(ExportMode::RawOnly)
    } else if text == "jpeg"@ {
        Some(ExportMode::JpegOnly)
    } else {
        None
    }
}

impl ExportMode {
    /// Name shown in the export menu.
    pub fn label(self) -> (name: &'static str)
        ensures
            name@ == (match self {
                ExportMode::All => "all files"@,
                ExportMode::RawOnly => "RAW only"@,
                ExportMode::JpegOnly => "JPEG only"@,
            }),
    {
        match self {
            ExportMode::All => "all files",
            ExportMode::RawOnly => "RAW only",
            ExportMode::JpegOnly => "JPEG only",
        }
    }

    /// Reads a stored mode; unknown texts stand for none.
    pub fn from_kv(value: &str) -> (mode: Option<Self>)
        ensures
            mode == mode_in(value@),
    {
        if str_is(value, "all") {
            Some(ExportMode::All)
        } else if str_is(value, "raw") {
            Some(ExportMode::RawOnly)
        } else if str_is(value, "jpeg") {
            Some(ExportMode::JpegOnly)
        } else {
            None
        }
    }

    /// How the mode is stored.
    pub fn to_kv(self) -> (value: &'static str)
        ensures
            value@ == mode_text(self),
    {
        match self {
            ExportMode::All => "all",
            ExportMode::RawOnly => "raw",
            ExportMode::JpegOnly => "jpeg",
        }
    }
}

/// A stored export mode is read back.
pub proof fn export_modes_round_trip(mode: ExportMode)
    ensures
        mode_in(mode_text(mode)) == Some(mode),
{
    reveal_strlit("all");
    reveal_strlit("raw");
    reveal_strlit("jpeg");
    assert("all"@[0] == 'a');
    assert("raw"@[0] == 'r');
    assert("jpeg"@[0] == 'j');
}

/// Direction of a display rotation.
#[derive(Clone, Copy, Debug, PartialEq, Eq, Structural)]
pub enum RotateDir {
    /// A quarter turn to the left.
    CounterClockwise,
    /// A quarter turn to the right.
    Clockwise,
}

/// Quarter turns clockwise that a direction adds.
pub open spec fn step_of(direction: RotateDir) -> int {
    match direction {
        RotateDir::CounterClockwise => -1,
        RotateDir::Clockwise => 1,
    }
}

impl RotateDir {
    /// Quarter turns clockwise that this direction adds.
    pub fn delta(self) -> (step: i8)
        ensures
            step == step_of(self),
    {
        match self {
            RotateDir::CounterClockwise => -1,
            RotateDir::Clockwise => 1,
        }
    }
}

/// A count of quarter turns after some more, wrapped into `0..4`.
pub open spec fn turns_after(current: u8, delta: int) -> u8 {
    ((current as int % 4 + delta) % 4) as u8
}

/// Adds quarter turns, wrapping into `0..4`.
pub fn turned(current: u8, delta: i8) -> (turns: u8)
    ensures
        turns == turns_after(current, delta as int),
        turns < 4,
{
    let sum: i16 = (current % 4) as i16 + delta as i16;
    match sum.checked_rem_euclid(4) {
        Some(turns) => turns as u8,
        None => 0,
    }
}

/// A turn and its opposite cancel, and four turns the same way bring a photo
/// back.
pub proof fn rotations_cancel(current: u8, direction: RotateDir)
    requires
        current < 4,
    ensures
        turns_after(turns_after(current, 1), -1) == current,
        turns_after(turns_after(current, -1), 1) == current,
        ({
            let d = step_of(direction);
            turns_after(turns_after(turns_after(turns_after(current, d), d), d), d) == current
        }),
{
}

/// Whether a stored auto-advance setting means on: only `off` means off.
pub open spec fn advance_in(value: Option<Seq<char>>) -> bool {
    match value {
        Some(text) => text != "off"@,
        None => true,
    }
}

/// Reads the auto-advance setting.
pub fn load_auto_advance(db: &Db) -> (on: bool)
    ensures
        on == advance_in(setting(db.kv@, AUTO_ADVANCE_KEY@)),
{
    match db.kv_get(AUTO_ADVANCE_KEY) {
        Some(value) => !str_is(value.as_str(), "off"),
        None => true,
    }
}

/// Stores the auto-advance setting.
pub fn store_auto_advance(db: &mut Db, enabled: bool)
    requires
        old(db).wf(),
    ensures
        final(db).wf(),
        final(db).photos == old(db).photos,
        final(db).roots == old(db).roots,
        final(db).next_id == old(db).next_id,
        stored_as(old(db).kv@, AUTO_ADVANCE_KEY@, if enabled {
            "on"@
        } else {
            "off"@
        }, final(db).kv@),
{
    let key: String = AUTO_ADVANCE_KEY.to_owned();
    let value: String = if enabled {
        "on".to_owned()
    } else {
        "off".to_owned()
    };
    db.kv_set(&key, &value);
}

/// Storing a text under a name, whichever copies hold them.
pub open spec fn stored_as(before: Seq<KvRow>, key: Seq<char>, value: Seq<char>, after: Seq<KvRow>) -> bool {
    exists|k: String, v: String| k@ == key && v@ == value && #[trigger] setting_stored(before, k, v, after)
}

/// Reads the export mode; anything unknown means all files.
pub fn load_export_mode(db: &Db) -> (mode: ExportMode)
    ensures
        mode == export_mode_in(setting(db.kv@, EXPORT_MODE_KEY@)),
{
    match db.kv_get(EXPORT_MODE_KEY) {
        Some(value) => match ExportMode::from_kv(value.as_str()) {
            Some(mode) => mode,
            None => ExportMode::All,
        },
        None => ExportMode::All,
    }
}

/// The mode that a stored setting stands for.
pub open spec fn export_mode_in(value: Option<Seq<char>>) -> ExportMode {
    match value {
        Some(text) => match mode_in(text) {
            Some(mode) => mode,
            None => ExportMode::All,
        },
        None => ExportMode::All,
    }
}

/// Stores the export mode.
pub fn store_export_mode(db: &mut Db, mode: ExportMode)
    requires
        old(db).wf(),
    ensures
        final(db).wf(),
        final(db).photos == old(db).photos,
        final(db).roots == old(db).roots,
        final(db).next_id == old(db).next_id,
        stored_as(old(db).kv@, EXPORT_MODE_KEY@, mode_text(mode), final(db).kv@),
{
    let key: String = EXPORT_MODE_KEY.to_owned();
    let value: String = mode.to_kv().to_owned();
    db.kv_set(&key, &value);
}

/// Both settings are read back as they were stored, and storing one leaves
/// the other alone.
pub proof fn settings_are_read_back(before: Seq<KvRow>, after: Seq<KvRow>, enabled: bool, mode: ExportMode)
    ensures
        stored_as(before, AUTO_ADVANCE_KEY@, if enabled {
            "on"@
        } else {
            "off"@
        }, after) ==> advance_in(setting(after, AUTO_ADVANCE_KEY@)) == enabled && setting(after, EXPORT_MODE_KEY@)
            == setting(before, EXPORT_MODE_KEY@),
        stored_as(before, EXPORT_MODE_KEY@, mode_text(mode), after) ==> export_mode_in(
            setting(after, EXPORT_MODE_KEY@),
        ) == mode && setting(after, AUTO_ADVANCE_KEY@) == setting(before, AUTO_ADVANCE_KEY@),
{
    reveal_strlit("on");
    reveal_strlit("off");
    reveal_strlit("auto_advance");
    reveal_strlit("export_mode");
    assert("on"@.len() != "off"@.len());
    assert(AUTO_ADVANCE_KEY@.len() != EXPORT_MODE_KEY@.len());
    let wish = if enabled {
        "on"@
    } else {
        "off"@
    };
    if stored_as(before, AUTO_ADVANCE_KEY@, wish, after) {
        let (k, v) = choose|k: String, v: String|
            k@ == AUTO_ADVANCE_KEY@ && v@ == wish && #[trigger] setting_stored(before, k, v, after);
        crate::db_laws::setting_is_read_back(before, k, v, after, EXPORT_MODE_KEY@);
    }
    if stored_as(before, EXPORT_MODE_KEY@, mode_text(mode), after) {
        let (k, v) = choose|k: String, v: String|
            k@ == EXPORT_MODE_KEY@ && v@ == mode_text(mode) && #[trigger] setting_stored(before, k, v, after);
        crate::db_laws::setting_is_read_back(before, k, v, after, AUTO_ADVANCE_KEY@);
        export_modes_round_trip(mode);
    }
}

/// Name of a label.
pub open spec fn name_of_label(label: Label) -> Seq<char> {
    match label {
        Label::Unlabeled => "unlabeled"@,
        Label::Red => "red"@,
        Label::Yellow => "yellow"@,
        Label::Green => "green"@,
        Label::Blue => "blue"@,
        Label::Purple => "purple"@,
    }
}

/// Name of a label, for hints.
pub fn label_name(label: Label) -> (name: &'static str)
    ensures
        name@ == name_of_label(label),
{
    match label {
        Label::Unlabeled => "unlabeled",
        Label::Red => "red",
        Label::Yellow => "yellow",
        Label::Green => "green",
        Label::Blue => "blue",
        Label::Purple => "purple",
    }
}

/// The first `i` digits of `digits` with a narrow space wherever a multiple
/// of three of them is still to come.
pub open spec fn spaced(digits: Seq<char>, i: int) -> Seq<char>
    decreases i,
{
    if i <= 0 {
        Seq::empty()
    } else {
        let head = spaced(digits, i - 1);
        let head = if i - 1 > 0 && (digits.len() - (i - 1)) % 3 == 0 {
            head.push('\u{202f}')
        } else {
            head
        };
        head.push(digits[i - 1])
    }
}

/// A count with its thousands set apart.
pub open spec fn grouped_text(value: nat) -> Seq<char> {
    spaced(decimal(value), decimal(value).len() as int)
}

/// Writes a count with narrow spaces between thousands.
pub fn grouped(value: usize) -> (text: String)
    ensures
        text@ == grouped_text(value as nat),
{
    let digits: Vec<char> = decimal_chars(value as u64);
    let n: usize = digits.len();
    let mut out: Vec<char> = Vec::new();
    let mut i: usize = 0;
    proof {
        assert(out@ =~= Seq::<char>::empty());
    }
    while i < n
        invariant
            i <= n,
            n == digits.len(),
            out@ == spaced(digits@, i as int),
        decreases n - i,
    {
        if i > 0 && (n - i) % 3 == 0 {
            out.push('\u{202f}');
        }
        out.push(digits[i]);
        i = i + 1;
    }
    from_chars(&out)
}

/// The characters of a text other than the narrow space.
pub open spec fn unspaced(text: Seq<char>) -> Seq<char>
    decreases text.len(),
{
    if text.len() == 0 {
        Seq::empty()
    } else {
        let head = unspaced(text.drop_last());
        if text.last() == '\u{202f}' {
            head
        } else {
            head.push(text.last())
        }
    }
}

proof fn lemma_spaced_digits(digits: Seq<char>, i: int)
    requires
        0 <= i <= digits.len(),
        forall|k: int| 0 <= k < digits.len() ==> '0' <= #[trigger] digits[k] <= '9',
    ensures
        unspaced(spaced(digits, i)) == digits.take(i),
    decreases i,
{
    if i > 0 {
        lemma_spaced_digits(digits, i - 1);
        let head = spaced(digits, i - 1);
        let spaced_head = if i - 1 > 0 && (digits.len() - (i - 1)) % 3 == 0 {
            head.push('\u{202f}')
        } else {
            head
        };
        assert(spaced_head.drop_last() =~= head || spaced_head == head);
        assert(unspaced(spaced_head) == unspaced(head)) by {
            if spaced_head != head {
                assert(spaced_head.drop_last() =~= head);
                assert(spaced_head.last() == '\u{202f}');
            }
        }
        let full = spaced(digits, i);
        assert(full.drop_last() =~= spaced_head);
        assert(full.last() == digits[i - 1]);
        assert('0' <= digits[i - 1] <= '9');
        assert(digits.take(i) =~= digits.take(i - 1).push(digits[i - 1]));
    } else {
        assert(digits.take(0) =~= Seq::<char>::empty());
    }
}

/// Without its narrow spaces a grouped count is the plain number.
pub proof fn grouping_keeps_the_digits(value: nat)
    ensures
        unspaced(grouped_text(value)) == decimal(value),
{
    decimals_are_digits(value);
    let digits = decimal(value);
    lemma_spaced_digits(digits, digits.len() as int);
    assert(digits.take(digits.len() as int) =~= digits);
}

/// The label of the first digit that is down, from 0 on.
pub open spec fn digit_label(down: Seq<bool>) -> Option<Label> {
    if down[0] {
        Some(Label::Unlabeled)
    } else if down[1] {
        Some(Label::Red)
    } else if down[2] {
        Some(Label::Yellow)
    } else if down[3] {
        Some(Label::Green)
    } else if down[4] {
        Some(Label::Blue)
    } else if down[5] {
        Some(Label::Purple)
    } else {
        None
    }
}

/// The label that digit keys ask for; of several that went down in a frame
/// the lowest counts.
pub fn pressed_label_key(down: &[bool; 6]) -> (label: Option<Label>)
    ensures
        label == digit_label(down@),
{
    let mut digit: u8 = 0;
    while digit < 6
        invariant
            digit <= 6,
            forall|k: int| 0 <= k < digit ==> !down@[k],
        decreases 6 - digit,
    {
        if down[digit as usize] {
            let label: Option<Label> = Label::from_u8(digit);
            return label;
        }
        digit = digit + 1;
    }
    None
}

/// The label of bare digits: with Ctrl or Alt held they are other shortcuts.
pub open spec fn bare_digit_label(down: Seq<bool>, modified: bool) -> Option<Label> {
    if modified {
        None
    } else {
        digit_label(down)
    }
}

/// The label that bare digit keys ask for; `modified` says whether Ctrl or Alt
/// is held, and then there is none.
pub fn bare_label_key(down: &[bool; 6], modified: bool) -> (label: Option<Label>)
    ensures
        label == bare_digit_label(down@, modified),
{
    if modified {
        None
    } else {
        pressed_label_key(down)
    }
}

/// The turn that the bracket keys ask for; the left one counts first.
pub fn pressed_rotate_key(left: bool, right: bool) -> (direction: Option<RotateDir>)
    ensures
        direction == (if left {
            Some(RotateDir::CounterClockwise)
        } else if right {
            Some(RotateDir::Clockwise)
        } else {
            None
        }),
{
    if left {
        Some(RotateDir::CounterClockwise)
    } else if right {
        Some(RotateDir::Clockwise)
    } else {
        None
    }
}

/// What hovering over a chip says: what it shows, and how many photos that is.
pub open spec fn chip_words(hint: Seq<char>, count: Option<usize>) -> Seq<char> {
    match count {
        Some(n) => hint + " · "@ + grouped_text(n as nat) + (if n == 1 {
            " photo"@
        } else {
            " photos"@
        }),
        None => hint,
    }
}

/// Words the hint of a chip.
pub fn chip_hint(hint: &str, count: Option<usize>) -> (text: String)
    ensures
        text@ == chip_words(hint@, count),
{
    match count {
        Some(n) => {
            let number: String = grouped(n);
            let head: String = concat(hint, " · ");
            let middle: String = concat(head.as_str(), number.as_str());
            concat(
                middle.as_str(),
                if n == 1 {
                    " photo"
                } else {
                    " photos"
                },
            )
        },
        None => hint.to_owned(),
    }
}

/// The color of a label: red, green and blue.
pub open spec fn color_of_label(label: Label) -> (u8, u8, u8) {
    match label {
        Label::Unlabeled => (0x8a, 0x8d, 0x92),
        Label::Red => (0xe5, 0x48, 0x4d),
        Label::Yellow => (0xf5, 0xc5, 0x18),
        Label::Green => (0x46, 0xa7, 0x58),
        Label::Blue => (0x3e, 0x63, 0xdd),
        Label::Purple => (0x9d, 0x5c, 0xe8),
    }
}

/// The color of a label: red, green and blue.
pub fn label_color(label: Label) -> (rgb: (u8, u8, u8))
    ensures
        rgb == color_of_label(label),
{
    match label {
        Label::Unlabeled => (0x8a, 0x8d, 0x92),
        Label::Red => (0xe5, 0x48, 0x4d),
        Label::Yellow => (0xf5, 0xc5, 0x18),
        Label::Green => (0x46, 0xa7, 0x58),
        Label::Blue => (0x3e, 0x63, 0xdd),
        Label::Purple => (0x9d, 0x5c, 0xe8),
    }
}

} // verus!
