//! Layout modes, their settings, and the layout systems they start.
use vstd::prelude::*;

verus! {

#[derive(Clone, Copy, PartialEq, Eq, Structural, Debug)]
pub enum LayoutMode {
    Traditional,
    Bsp,
    Stack,
    MasterStack,
    Scrolling,
}

impl Default for LayoutMode {
    fn default() -> (r: Self)
        ensures
            r == LayoutMode::Traditional,
    {
        LayoutMode::Traditional
    }
}

/// Where a new window goes among those already laid out.
#[derive(Clone, Copy, PartialEq, Eq, Structural, Debug)]
pub enum WindowInsertionPoint {
    AfterFocused,
    AtEnd,
}

#[derive(Clone, Copy, PartialEq, Eq, Structural, Debug)]
pub enum Orientation {
    Horizontal,
    Vertical,
}

/// Settings that every mode has, and that fall back to the shared ones where
/// a mode leaves them open.
#[derive(Clone, Copy, PartialEq, Eq, Structural, Debug)]
pub struct BaseSettings {
    pub window_insertion_point: Option<WindowInsertionPoint>,
}

#[derive(Clone, Copy, PartialEq, Eq, Structural, Debug)]
pub struct TraditionalSettings {
    pub base: BaseSettings,
    pub equalize_nodes: bool,
}

#[derive(Clone, Copy, PartialEq, Eq, Structural, Debug)]
pub struct BspSettings {
    pub base: BaseSettings,
}

#[derive(Clone, Copy, PartialEq, Eq, Structural, Debug)]
pub struct StackSettings {
    pub base: BaseSettings,
    pub default_orientation: Orientation,
}

#[derive(Clone, Copy, PartialEq, Eq, Structural, Debug)]
pub struct MasterStackSettings {
    pub base: BaseSettings,
    pub master_count: u32,
}

#[derive(Clone, Copy, PartialEq, Eq, Structural, Debug)]
pub struct ScrollingSettings {
    pub base: BaseSettings,
    pub visible_columns: u32,
}

/// The layout part of the configuration.
#[derive(Clone, Copy, PartialEq, Eq, Structural, Debug)]
pub struct LayoutSettings {
    pub mode: LayoutMode,
    pub base: BaseSettings,
    pub traditional: TraditionalSettings,
    pub bsp: BspSettings,
    pub stack: StackSettings,
    pub master_stack: MasterStackSettings,
    pub scrolling: ScrollingSettings,
}

impl LayoutSettings {
    /// What `mode` itself says about the shared settings.
    pub open spec fn base_of(self, mode: LayoutMode) -> BaseSettings {
        match mode {
            LayoutMode::Traditional => self.traditional.base,
            LayoutMode::Bsp => self.bsp.base,
            LayoutMode::Stack => self.stack.base,
            LayoutMode::MasterStack => self.master_stack.base,
            LayoutMode::Scrolling => self.scrolling.base,
        }
    }

    /// The shared settings as they hold in `mode`.
    pub open spec fn resolved_base(self, mode: LayoutMode) -> BaseSettings {
        BaseSettings {
            window_insertion_point: match self.base_of(mode).window_insertion_point {
                Some(point) => Some(point),
                None => self.base.window_insertion_point,
            },
        }
    }

    /// Where new windows go in `mode`.
    pub open spec fn insertion_point(self, mode: LayoutMode) -> WindowInsertionPoint {
        match self.resolved_base(mode).window_insertion_point {
            Some(point) => point,
            None => WindowInsertionPoint::AfterFocused,
        }
    }

    pub fn resolved_base_for(&self, mode: LayoutMode) -> (r: BaseSettings)
        ensures
            r == self.resolved_base(mode),
    {
        let own = match mode {
            LayoutMode::Traditional => self.traditional.base,
            LayoutMode::Bsp => self.bsp.base,
            LayoutMode::Stack => self.stack.base,
            LayoutMode::MasterStack => self.master_stack.base,
            LayoutMode::Scrolling => self.scrolling.base,
        };
        match own.window_insertion_point {
            Some(point) => BaseSettings { window_insertion_point: Some(point) },
            None => BaseSettings { window_insertion_point: self.base.window_insertion_point },
        }
    }

    pub fn window_insertion_point_for(&self, mode: LayoutMode) -> (r: WindowInsertionPoint)
        ensures
            r == self.insertion_point(mode),
    {
        match self.resolved_base_for(mode).window_insertion_point {
            Some(point) => point,
            None => WindowInsertionPoint::AfterFocused,
        }
    }

    /// The settings of a configuration that sets nothing.
    pub open spec fn standard() -> Self {
        let base = BaseSettings { window_insertion_point: None };
        LayoutSettings {
            mode: LayoutMode::Traditional,
            base,
            traditional: TraditionalSettings { base, equalize_nodes: false },
            bsp: BspSettings { base },
            stack: StackSettings { base, default_orientation: Orientation::Horizontal },
            master_stack: MasterStackSettings { base, master_count: 1 },
            scrolling: ScrollingSettings { base, visible_columns: 1 },
        }
    }
}

impl Default for LayoutSettings {
    fn default() -> (r: Self)
        ensures
            r == LayoutSettings::standard(),
    {
        let base = BaseSettings { window_insertion_point: None };
        LayoutSettings {
            mode: LayoutMode::Traditional,
            base,
            traditional: TraditionalSettings { base, equalize_nodes: false },
            bsp: BspSettings { base },
            stack: StackSettings { base, default_orientation: Orientation::Horizontal },
            master_stack: MasterStackSettings { base, master_count: 1 },
            scrolling: ScrollingSettings { base, visible_columns: 1 },
        }
    }
}

/// A layout system without windows yet, as its mode and the settings start it.
#[derive(Clone, Copy, PartialEq, Eq, Structural, Debug)]
pub enum LayoutSystemKind {
    Traditional { insertion_point: WindowInsertionPoint, equalize_nodes: bool },
    Bsp { insertion_point: WindowInsertionPoint },
    Stack { orientation: Orientation, insertion_point: WindowInsertionPoint },
    MasterStack { master_settings: MasterStackSettings },
    Scrolling { scrolling_settings: ScrollingSettings },
}

/// The layout system that `mode` starts under `settings`.
pub open spec fn started_system(mode: LayoutMode, settings: LayoutSettings) -> LayoutSystemKind {
    match mode {
        LayoutMode::Traditional => LayoutSystemKind::Traditional {
            insertion_point: settings.insertion_point(mode),
            equalize_nodes: settings.traditional.equalize_nodes,
        },
        LayoutMode::Bsp => LayoutSystemKind::Bsp {
            insertion_point: settings.insertion_point(mode),
        },
        LayoutMode::Stack => LayoutSystemKind::Stack {
            orientation: settings.stack.default_orientation,
            insertion_point: settings.insertion_point(mode),
        },
        LayoutMode::MasterStack => LayoutSystemKind::MasterStack {
            master_settings: MasterStackSettings {
                base: settings.resolved_base(mode),
                ..settings.master_stack
            },
        },
        LayoutMode::Scrolling => LayoutSystemKind::Scrolling {
            scrolling_settings: ScrollingSettings {
                base: settings.resolved_base(mode),
                ..settings.scrolling
            },
        },
    }
}

} // verus!
