use vstd::prelude::*;

verus! {

/// Shown when the sink is muted, whatever its volume.
pub const GLYPH_MUTED: &'static str = "\u{f05e}";

/// Shown for a volume of at most ten percent.
pub const GLYPH_VOLUME_OFF: &'static str = "\u{f026}";

/// Shown for a volume above ten and at most fifty percent.
pub const GLYPH_VOLUME_DOWN: &'static str = "\u{f027}";

/// Shown for a volume above fifty percent.
pub const GLYPH_VOLUME_UP: &'static str = "\u{f028}";

/// The icon that stands for a sink's state.
#[derive(PartialEq, Eq, Structural, Clone, Copy, Debug)]
pub enum VolumeIcon {
    Muted,
    Off,
    Down,
    Up,
}

/// Muting beats every volume; otherwise the bands are `[0, 10]`, `(10, 50]`
/// and the rest, where a shared boundary belongs to the lower band.
pub open spec fn icon_for(is_muted: bool, volume_percent: int) -> VolumeIcon {
    if is_muted {
        VolumeIcon::Muted
    } else if 0 <= volume_percent <= 10 {
        VolumeIcon::Off
    } else if 10 <= volume_percent <= 50 {
        VolumeIcon::Down
    } else {
        VolumeIcon::Up
    }
}

pub open spec fn glyph_of(icon: VolumeIcon) -> Seq<char> {
    match icon {
        VolumeIcon::Muted => GLYPH_MUTED@,
        VolumeIcon::Off => GLYPH_VOLUME_OFF@,
        VolumeIcon::Down => GLYPH_VOLUME_DOWN@,
        VolumeIcon::Up => GLYPH_VOLUME_UP@,
    }
}

/// The order of the unmuted icons, from quietest to loudest.
pub open spec fn loudness(icon: VolumeIcon) -> int {
    match icon {
        VolumeIcon::Muted => 0,
        VolumeIcon::Off => 1,
        VolumeIcon::Down => 2,
        VolumeIcon::Up => 3,
    }
}

/// Muting decides the icon whatever the volume; unmuted, a louder volume
/// from zero up never gets a quieter icon, and the bands are `[0, 10]`,
/// `(10, 50]` and above fifty.
pub proof fn lemma_icon_bands(v1: int, v2: int)
    ensures
        icon_for(true, v1) == VolumeIcon::Muted,
        0 <= v1 <= v2 ==> loudness(icon_for(false, v1)) <= loudness(icon_for(false, v2)),
        0 <= v1 <= 10 ==> icon_for(false, v1) == VolumeIcon::Off,
        10 < v1 <= 50 ==> icon_for(false, v1) == VolumeIcon::Down,
        50 < v1 ==> icon_for(false, v1) == VolumeIcon::Up,
{
}

impl VolumeIcon {
    pub fn glyph(&self) -> (r: &'static str)
        ensures
            r@ == glyph_of(*self),
    {
        match self {
            VolumeIcon::Muted => GLYPH_MUTED,
            VolumeIcon::Off => GLYPH_VOLUME_OFF,
            VolumeIcon::Down => GLYPH_VOLUME_DOWN,
            VolumeIcon::Up => GLYPH_VOLUME_UP,
        }
    }
}

/// What a sink record holds, as plain values.
pub struct SinkView {
    pub number: int,
    pub name: Seq<char>,
    pub description: Seq<char>,
    pub is_muted: bool,
    pub volume_percent: int,
}

impl SinkView {
    /// A record counts once it has a non-negative number and a non-empty name.
    pub open spec fn is_valid(self) -> bool {
        self.number >= 0 && self.name.len() > 0
    }

    pub open spec fn icon(self) -> VolumeIcon {
        icon_for(self.is_muted, self.volume_percent)
    }
}

/// The record of a sink block before any field of it is read.
pub open spec fn empty_sink() -> SinkView {
    SinkView {
        number: -1,
        name: Seq::empty(),
        description: Seq::empty(),
        is_muted: true,
        volume_percent: 0,
    }
}

/// One audio output device as the sink listing reports it.
#[derive(Debug)]
pub struct Sink {
    pub number: i32,
    pub name: String,
    pub description: String,
    pub is_muted: bool,
    pub volume_percent: i32,
}

impl View for Sink {
    type V = SinkView;

    open spec fn view(&self) -> SinkView {
        SinkView {
            number: self.number as int,
            name: self.name@,
            description: self.description@,
            is_muted: self.is_muted,
            volume_percent: self.volume_percent as int,
        }
    }
}

pub open spec fn sinks_view(sinks: Seq<Sink>) -> Seq<SinkView> {
    sinks.map_values(|s: Sink| s@)
}

impl Default for Sink {
    fn default() -> (r: Sink)
        ensures
            r@ == empty_sink(),
    {
        Sink {
            number: -1,
            name: String::new(),
            description: String::new(),
            is_muted: true,
            volume_percent: 0,
        }
    }
}

impl Sink {
    pub fn is_valid(&self) -> (r: bool)
        ensures
            r == self@.is_valid(),
    {
        self.number >= 0 && !self.name.as_str().is_empty()
    }

    /// The icon for this sink's mute state and volume.
    pub fn icon_kind(&self) -> (r: VolumeIcon)
        ensures
            r == self@.icon(),
    {
        if self.is_muted {
            VolumeIcon::Muted
        } else if 0 <= self.volume_percent && self.volume_percent <= 10 {
            VolumeIcon::Off
        } else if 10 <= self.volume_percent && self.volume_percent <= 50 {
            VolumeIcon::Down
        } else {
            VolumeIcon::Up
        }
    }

    /// The glyph of this sink's icon.
    pub fn icon(&self) -> (r: &'static str)
        ensures
            r@ == glyph_of(self@.icon()),
    {
        self.icon_kind().glyph()
    }
}

} // verus!
