//! The tabs of the debug window.

use vstd::prelude::*;
use crate::ui::clouds::AtmosphereSubTab;
use crate::ui::profiler::ProfilerSubTab;

verus! {

/// The tabs of the debug window.
#[derive(Clone, Copy, Debug, PartialEq, Eq, Structural)]
pub enum DebugTab {
    LocationAndTime,
    Camera,
    Vehicles,
    Atmosphere,
    Streaming,
    Physics,
    Profiler,
}

impl DebugTab {
    /// The caption of the tab.
    pub fn label(self) -> (caption: &'static str)
        ensures
            caption@ == match self {
                DebugTab::LocationAndTime => "Location & time"@,
                DebugTab::Camera => "Camera"@,
                DebugTab::Vehicles => "Vehicles"@,
                DebugTab::Atmosphere => "Atmosphere"@,
                DebugTab::Streaming => "Streaming"@,
                DebugTab::Physics => "Physics"@,
                DebugTab::Profiler => "Profiler"@,
            },
    {
        match self {
            DebugTab::LocationAndTime => "Location & time",
            DebugTab::Camera => "Camera",
            DebugTab::Vehicles => "Vehicles",
            DebugTab::Atmosphere => "Atmosphere",
            DebugTab::Streaming => "Streaming",
            DebugTab::Physics => "Physics",
            DebugTab::Profiler => "Profiler",
        }
    }

    /// The tabs from left to right.
    pub fn all() -> (tabs: Vec<DebugTab>)
        ensures
            tabs@ == seq![
                DebugTab::LocationAndTime,
                DebugTab::Camera,
                DebugTab::Vehicles,
                DebugTab::Atmosphere,
                DebugTab::Streaming,
                DebugTab::Physics,
                DebugTab::Profiler,
            ],
    {
        vec![
            DebugTab::LocationAndTime,
            DebugTab::Camera,
            DebugTab::Vehicles,
            DebugTab::Atmosphere,
            DebugTab::Streaming,
            DebugTab::Physics,
            DebugTab::Profiler,
        ]
    }
}

/// What the debug window shows.
#[derive(Clone, Copy, Debug, PartialEq, Eq, Structural)]
pub struct DebugUiState {
    /// The window is there.
    pub visible: bool,
    pub selected_tab: DebugTab,
    pub atmosphere_subtab: AtmosphereSubTab,
    pub profiler_subtab: ProfilerSubTab,
}

impl DebugUiState {
    /// The window shows the first page of the first tab.
    pub fn new() -> (state: Self)
        ensures
            state == (DebugUiState {
                visible: true,
                selected_tab: DebugTab::LocationAndTime,
                atmosphere_subtab: AtmosphereSubTab::Overview,
                profiler_subtab: ProfilerSubTab::Logic,
            }),
    {
        DebugUiState {
            visible: true,
            selected_tab: DebugTab::LocationAndTime,
            atmosphere_subtab: AtmosphereSubTab::Overview,
            profiler_subtab: ProfilerSubTab::Logic,
        }
    }

    /// The key for the window: shows or hides it.
    pub fn toggle_ui_visible(&mut self, just_pressed: bool)
        ensures
            *final(self) == (DebugUiState {
                visible: old(self).visible != just_pressed,
                ..*old(self)
            }),
    {
        if just_pressed {
            self.visible = !self.visible;
        }
    }

    /// A click on a tab, if there was one; tells whether the vehicles are on show after it.
    pub fn select(&mut self, clicked: Option<DebugTab>) -> (vehicle_tab_open: bool)
        ensures
            *final(self) == (DebugUiState {
                selected_tab: match clicked {
                    Some(tab) => tab,
                    None => old(self).selected_tab,
                },
                ..*old(self)
            }),
            vehicle_tab_open == (final(self).selected_tab is Vehicles),
    {
        if let Some(tab) = clicked {
            self.selected_tab = tab;
        }
        match self.selected_tab {
            DebugTab::Vehicles => true,
            _ => false,
        }
    }
}

/// The key turns the window over and changes nothing else.
pub proof fn lemma_the_key_turns_the_window(state: &mut DebugUiState, just_pressed: bool)
    requires
        call_ensures(DebugUiState::toggle_ui_visible, (state, just_pressed), ()),
    ensures
        final(state).visible != old(state).visible <==> just_pressed,
        final(state).selected_tab == old(state).selected_tab,
        final(state).atmosphere_subtab == old(state).atmosphere_subtab,
        final(state).profiler_subtab == old(state).profiler_subtab,
{
}

/// A click selects its tab, and without a click the tab stays; the vehicles are on show in their own
/// tab alone.
pub proof fn lemma_clicks_select_tabs(
    state: &mut DebugUiState,
    clicked: Option<DebugTab>,
    vehicles: bool,
)
    requires
        call_ensures(DebugUiState::select, (state, clicked), vehicles),
    ensures
        clicked matches Some(tab) ==> final(state).selected_tab == tab,
        clicked is None ==> final(state).selected_tab == old(state).selected_tab,
        vehicles <==> final(state).selected_tab == DebugTab::Vehicles,
        final(state).visible == old(state).visible,
{
}

} // verus!
