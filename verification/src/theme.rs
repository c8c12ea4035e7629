//! Color theme definitions for the visualization.
use vstd::prelude::*;
use crate::types::Color;

verus! {

/// Color theme for the visualization.
#[derive(Debug, Clone, Copy, PartialEq, Eq, Structural)]
pub enum Theme {
    Dark,
    Light,
}

/// The color with the given components, opaque.
pub open spec fn rgb(r: u8, g: u8, b: u8) -> Color {
    Color { r, g, b, a: 255 }
}

impl Default for Theme {
    fn default() -> (r: Self)
        ensures
            r == Theme::Dark,
    {
        Theme::Dark
    }
}

impl Theme {
    /// Resting color of a healthy module.
    pub fn neuron_base(&self) -> (c: Color)
        ensures
            c == (match self {
                Theme::Dark => rgb(60, 80, 120),
                Theme::Light => rgb(70, 130, 180),
            }),
    {
        match self {
            Theme::Dark => Color::from_rgb(60, 80, 120),
            Theme::Light => Color::from_rgb(70, 130, 180),
        }
    }

    /// Color of an active module.
    pub fn neuron_active(&self) -> (c: Color)
        ensures
            c == (match self {
                Theme::Dark => rgb(100, 180, 255),
                Theme::Light => rgb(30, 144, 255),
            }),
    {
        match self {
            Theme::Dark => Color::from_rgb(100, 180, 255),
            Theme::Light => Color::from_rgb(30, 144, 255),
        }
    }

    /// Color of a module that is firing heavily.
    pub fn neuron_firing(&self) -> (c: Color)
        ensures
            c == (match self {
                Theme::Dark => rgb(180, 220, 255),
                Theme::Light => rgb(135, 206, 250),
            }),
    {
        match self {
            Theme::Dark => Color::from_rgb(180, 220, 255),
            Theme::Light => Color::from_rgb(135, 206, 250),
        }
    }

    /// Resting color of a connection.
    pub fn synapse_base(&self) -> (c: Color)
        ensures
            c == (match self {
                Theme::Dark => rgb(80, 60, 120),
                Theme::Light => rgb(147, 112, 219),
            }),
    {
        match self {
            Theme::Dark => Color::from_rgb(80, 60, 120),
            Theme::Light => Color::from_rgb(147, 112, 219),
        }
    }

    /// Color of a connection that carries messages.
    pub fn synapse_active(&self) -> (c: Color)
        ensures
            c == (match self {
                Theme::Dark => rgb(200, 100, 255),
                Theme::Light => rgb(186, 85, 211),
            }),
    {
        match self {
            Theme::Dark => Color::from_rgb(200, 100, 255),
            Theme::Light => Color::from_rgb(186, 85, 211),
        }
    }

    /// Color of a module in warning state.
    pub fn neuron_warning(&self) -> (c: Color)
        ensures
            c == (match self {
                Theme::Dark => rgb(255, 180, 80),
                Theme::Light => rgb(255, 140, 0),
            }),
    {
        match self {
            Theme::Dark => Color::from_rgb(255, 180, 80),
            Theme::Light => Color::from_rgb(255, 140, 0),
        }
    }

    /// Color of a module in critical state.
    pub fn neuron_critical(&self) -> (c: Color)
        ensures
            c == (match self {
                Theme::Dark => rgb(255, 80, 100),
                Theme::Light => rgb(220, 20, 60),
            }),
    {
        match self {
            Theme::Dark => Color::from_rgb(255, 80, 100),
            Theme::Light => Color::from_rgb(220, 20, 60),
        }
    }

    /// Color of primary text.
    pub fn text_primary(&self) -> (c: Color)
        ensures
            c == (match self {
                Theme::Dark => rgb(200, 200, 220),
                Theme::Light => rgb(30, 30, 50),
            }),
    {
        match self {
            Theme::Dark => Color::from_rgb(200, 200, 220),
            Theme::Light => Color::from_rgb(30, 30, 50),
        }
    }

    /// Color of secondary, translucent text.
    pub fn text_secondary(&self) -> (c: Color)
        ensures
            c == (match self {
                Theme::Dark => Color { r: 150, g: 150, b: 180, a: 180 },
                Theme::Light => Color { r: 80, g: 80, b: 100, a: 200 },
            }),
    {
        match self {
            Theme::Dark => Color::from_rgba_unmultiplied(150, 150, 180, 180),
            Theme::Light => Color::from_rgba_unmultiplied(80, 80, 100, 200),
        }
    }

    /// Background color of the graph area.
    pub fn background(&self) -> (c: Color)
        ensures
            c == (match self {
                Theme::Dark => rgb(15, 15, 25),
                Theme::Light => rgb(245, 245, 250),
            }),
    {
        match self {
            Theme::Dark => Color::from_rgb(15, 15, 25),
            Theme::Light => Color::from_rgb(245, 245, 250),
        }
    }

    /// Fill color of panels and windows.
    pub fn panel_fill(&self) -> (c: Color)
        ensures
            c == (match self {
                Theme::Dark => rgb(20, 20, 35),
                Theme::Light => rgb(255, 255, 255),
            }),
    {
        match self {
            Theme::Dark => Color::from_rgb(20, 20, 35),
            Theme::Light => Color::from_rgb(255, 255, 255),
        }
    }

    /// The other theme.
    pub fn toggle(&self) -> (r: Theme)
        ensures
            r == toggled(*self),
    {
        match self {
            Theme::Dark => Theme::Light,
            Theme::Light => Theme::Dark,
        }
    }

    /// The theme's name.
    pub fn label(&self) -> (r: &'static str)
        ensures
            r@ == (match self {
                Theme::Dark => "Dark"@,
                Theme::Light => "Light"@,
            }),
    {
        match self {
            Theme::Dark => "Dark",
            Theme::Light => "Light",
        }
    }
}

/// The other theme.
pub open spec fn toggled(t: Theme) -> Theme {
    match t {
        Theme::Dark => Theme::Light,
        Theme::Light => Theme::Dark,
    }
}

/// Toggling the theme always changes it, and toggling twice gives the
/// theme back.
pub proof fn lemma_toggle_involution(t: Theme)
    ensures
        toggled(t) != t,
        toggled(toggled(t)) == t,
{
}

} // verus!
