//! The words of the interface, in Chinese and English.
//!
//! Each table is one value, so a missing translation cannot be: a string that
//! is added has to be added to both.

use crate::text::is_white;
use vstd::prelude::*;
use vstd::string::*;

verus! {

/// The tray menu.
#[derive(Clone, Copy)]
pub struct TrayText {
    pub enabled: &'static str,
    pub route_through: &'static str,
    /// Shown instead of the route entry once audio is already going
    /// through the virtual card.
    pub route_through_done: &'static str,
    pub panel: &'static str,
    pub mixer: &'static str,
    pub presets: &'static str,
    pub no_presets: &'static str,
    pub autostart: &'static str,
    pub install_driver: &'static str,
    pub remove_driver: &'static str,
    pub rescan: &'static str,
    pub language: &'static str,
    pub quit: &'static str,
    /// Tooltip fragments.
    pub no_preset: &'static str,
    pub not_enhanced: &'static str,
    pub tooltip_idle: &'static str,
    pub tooltip_disabled: &'static str,
    pub tooltip_no_card: &'static str,
}

/// The mixer and routing window.
#[derive(Clone, Copy)]
pub struct MixerText {
    pub title: &'static str,
    pub devices: &'static str,
    pub apps: &'static str,
    pub routing: &'static str,
    /// The "no explicit destination" entry in an application's device list.
    pub follow_system: &'static str,
    /// Shown next to an application whose audio bypasses the enhancer.
    pub bypasses: &'static str,
    pub set_default: &'static str,
    pub is_default: &'static str,
    /// Labels the enhancer's own virtual card in the device list.
    pub virtual_card: &'static str,
    /// The row for sounds that belong to no application.
    pub system_sounds: &'static str,
    pub no_devices: &'static str,
    pub no_apps: &'static str,
    pub no_routes: &'static str,
    pub policy_unavailable: &'static str,
    pub method_policy: &'static str,
    pub method_injection: &'static str,
    /// Why an injection rule is not doing anything yet.
    pub injection_unavailable: &'static str,
    pub routing_hint: &'static str,
    pub remove: &'static str,
    pub mute: &'static str,
    pub unmute: &'static str,
    /// The noun after a count of streams.
    pub streams_suffix: &'static str,
}

/// The tuning panel.
#[derive(Clone, Copy)]
pub struct PanelText {
    pub enabled: &'static str,
    pub status_processing: &'static str,
    pub status_idle: &'static str,
    pub status_no_card: &'static str,
    pub preset: &'static str,
    pub no_selection: &'static str,
    pub effects: &'static str,
    pub effect_fidelity: &'static str,
    pub effect_surround: &'static str,
    pub effect_ambience: &'static str,
    pub effect_dynamic_boost: &'static str,
    pub effect_bass: &'static str,
    pub equalizer: &'static str,
    pub bands: &'static str,
    /// Explains the gesture on the curve.
    pub eq_hint: &'static str,
    pub eq_reset: &'static str,
    pub output: &'static str,
    pub balance: &'static str,
    pub master_gain: &'static str,
    pub normalization: &'static str,
    pub volume_leveling: &'static str,
    pub filter_q: &'static str,
    pub spectrum: &'static str,
    pub save_name_hint: &'static str,
    pub save_button: &'static str,
    pub save_help: &'static str,
    pub save_where: &'static str,
    pub device_in_prefix: &'static str,
    pub device_out_prefix: &'static str,
    pub latency_label: &'static str,
    pub underruns_label: &'static str,
    pub drops_label: &'static str,
    /// Unit of the exact underrun figure.
    pub frames_unit: &'static str,
    /// Whether large counters are grouped by ten thousand rather than by
    /// a thousand.
    pub groups_by_ten_thousand: bool,
    /// Save results. The file name takes the place of the braces.
    pub saved_ok: &'static str,
    pub save_name_required: &'static str,
    pub save_name_invalid: &'static str,
    pub save_overwrote: &'static str,
    pub save_failed: &'static str,
}

/// Every string the interface can show.
#[derive(Clone, Copy)]
pub struct Strings {
    pub tray: TrayText,
    pub panel: PanelText,
    pub mixer: MixerText,
}

/// The tray menu in Chinese (Simplified).
pub open spec fn zh_tray() -> TrayText {
    TrayText {
        enabled: "启用音效",
        route_through: "输出走 FxTrumpet",
        route_through_done: "输出已走 FxTrumpet",
        panel: "调音面板…",
        mixer: "混音器与路由…",
        presets: "预设",
        no_presets: "（无预设）",
        autostart: "开机自启",
        install_driver: "安装虚拟声卡…",
        remove_driver: "卸载虚拟声卡",
        rescan: "重新扫描预设",
        language: "语言",
        quit: "退出",
        no_preset: "无预设",
        not_enhanced: "输出未经增强（默认设备不是虚拟声卡）",
        tooltip_idle: "FxTrumpet — 空闲",
        tooltip_disabled: "FxTrumpet — 已停用",
        tooltip_no_card: "FxTrumpet — 未安装虚拟声卡",
    }
}

/// The mixer and routing window in Chinese (Simplified).
pub open spec fn zh_mixer() -> MixerText {
    MixerText {
        title: "混音器与路由",
        devices: "输出设备",
        apps: "应用程序",
        routing: "路由规则",
        follow_system: "跟随系统（经过增强）",
        bypasses: "绕过增强",
        set_default: "设为默认",
        is_default: "当前默认",
        virtual_card: "虚拟声卡",
        system_sounds: "系统声音",
        no_devices: "没有可用的输出设备",
        no_apps: "当前没有应用在播放声音",
        no_routes: "暂无规则。在下方把某个应用指到指定设备即可建立规则。",
        policy_unavailable: "此系统不支持按应用路由（需要 Windows 10 1803 及以上）",
        method_policy: "系统策略",
        method_injection: "注入",
        injection_unavailable: "注入式路由尚未构建进来，该规则会退回系统策略",
        routing_hint: "「跟随系统」的应用走虚拟声卡，即经过增强；指到具体设备的应用会绕过增强。",
        remove: "删除",
        mute: "静音",
        unmute: "取消静音",
        streams_suffix: "条流",
    }
}

/// The tuning panel in Chinese (Simplified).
pub open spec fn zh_panel() -> PanelText {
    PanelText {
        enabled: "启用",
        status_processing: "处理中",
        status_idle: "空闲",
        status_no_card: "未安装虚拟声卡",
        preset: "预设",
        no_selection: "—",
        effects: "音效",
        effect_fidelity: "保真度",
        effect_surround: "环绕",
        effect_ambience: "空间感",
        effect_dynamic_boost: "动态增强",
        effect_bass: "低音",
        equalizer: "均衡器",
        bands: "频段数",
        eq_hint: "拖动圆点调增益，双击归零",
        eq_reset: "归零",
        output: "输出",
        balance: "左右平衡",
        master_gain: "总增益",
        normalization: "响度归一",
        volume_leveling: "音量均衡",
        filter_q: "滤波器 Q 值",
        spectrum: "频谱",
        save_name_hint: "预设名称",
        save_button: "保存",
        save_help: "把当前的音效、均衡与输出设置存成一个 .fac 文件，之后可在托盘菜单或上方列表中选用。",
        save_where: "存入 %APPDATA%\\FxTrumpet\\presets",
        device_in_prefix: "输入",
        device_out_prefix: "输出",
        latency_label: "延迟",
        underruns_label: "欠载",
        drops_label: "丢帧",
        frames_unit: "帧",
        groups_by_ten_thousand: true,
        saved_ok: "已保存 {}",
        save_name_required: "请先填写预设名称",
        save_name_invalid: "名称含文件名不允许的字符（\\ / : * ? \" < > |），或与系统保留名重名",
        save_overwrote: "已覆盖 {}",
        save_failed: "保存失败，详见日志",
    }
}

/// The interface in Chinese (Simplified).
pub open spec fn zh_strings() -> Strings {
    Strings { tray: zh_tray(), panel: zh_panel(), mixer: zh_mixer() }
}

/// Executable [`zh_strings`].
pub fn zh() -> (r: Strings)
    ensures
        r == zh_strings(),
{
    Strings {
        tray: TrayText {
            enabled: "启用音效",
            route_through: "输出走 FxTrumpet",
            route_through_done: "输出已走 FxTrumpet",
            panel: "调音面板…",
            mixer: "混音器与路由…",
            presets: "预设",
            no_presets: "（无预设）",
            autostart: "开机自启",
            install_driver: "安装虚拟声卡…",
            remove_driver: "卸载虚拟声卡",
            rescan: "重新扫描预设",
            language: "语言",
            quit: "退出",
            no_preset: "无预设",
            not_enhanced: "输出未经增强（默认设备不是虚拟声卡）",
            tooltip_idle: "FxTrumpet — 空闲",
            tooltip_disabled: "FxTrumpet — 已停用",
            tooltip_no_card: "FxTrumpet — 未安装虚拟声卡",
        },
        panel: PanelText {
            enabled: "启用",
            status_processing: "处理中",
            status_idle: "空闲",
            status_no_card: "未安装虚拟声卡",
            preset: "预设",
            no_selection: "—",
            effects: "音效",
            effect_fidelity: "保真度",
            effect_surround: "环绕",
            effect_ambience: "空间感",
            effect_dynamic_boost: "动态增强",
            effect_bass: "低音",
            equalizer: "均衡器",
            bands: "频段数",
            eq_hint: "拖动圆点调增益，双击归零",
            eq_reset: "归零",
            output: "输出",
            balance: "左右平衡",
            master_gain: "总增益",
            normalization: "响度归一",
            volume_leveling: "音量均衡",
            filter_q: "滤波器 Q 值",
            spectrum: "频谱",
            save_name_hint: "预设名称",
            save_button: "保存",
            save_help: "把当前的音效、均衡与输出设置存成一个 .fac 文件，之后可在托盘菜单或上方列表中选用。",
            save_where: "存入 %APPDATA%\\FxTrumpet\\presets",
            device_in_prefix: "输入",
            device_out_prefix: "输出",
            latency_label: "延迟",
            underruns_label: "欠载",
            drops_label: "丢帧",
            frames_unit: "帧",
            groups_by_ten_thousand: true,
            saved_ok: "已保存 {}",
            save_name_required: "请先填写预设名称",
            save_name_invalid: "名称含文件名不允许的字符（\\ / : * ? \" < > |），或与系统保留名重名",
            save_overwrote: "已覆盖 {}",
            save_failed: "保存失败，详见日志",
        },
        mixer: MixerText {
            title: "混音器与路由",
            devices: "输出设备",
            apps: "应用程序",
            routing: "路由规则",
            follow_system: "跟随系统（经过增强）",
            bypasses: "绕过增强",
            set_default: "设为默认",
            is_default: "当前默认",
            virtual_card: "虚拟声卡",
            system_sounds: "系统声音",
            no_devices: "没有可用的输出设备",
            no_apps: "当前没有应用在播放声音",
            no_routes: "暂无规则。在下方把某个应用指到指定设备即可建立规则。",
            policy_unavailable: "此系统不支持按应用路由（需要 Windows 10 1803 及以上）",
            method_policy: "系统策略",
            method_injection: "注入",
            injection_unavailable: "注入式路由尚未构建进来，该规则会退回系统策略",
            routing_hint: "「跟随系统」的应用走虚拟声卡，即经过增强；指到具体设备的应用会绕过增强。",
            remove: "删除",
            mute: "静音",
            unmute: "取消静音",
            streams_suffix: "条流",
        },
    }
}

/// The tray menu in English.
pub open spec fn en_tray() -> TrayText {
    TrayText {
        enabled: "Enabled",
        route_through: "Route output via FxTrumpet",
        route_through_done: "Output routed via FxTrumpet",
        panel: "Tuning panel…",
        mixer: "Mixer & routing…",
        presets: "Presets",
        no_presets: "(none found)",
        autostart: "Start with Windows",
        install_driver: "Install sound card…",
        remove_driver: "Remove sound card",
        rescan: "Rescan presets",
        language: "Language",
        quit: "Quit",
        no_preset: "no preset",
        not_enhanced: "output is NOT enhanced (default device is not the virtual card)",
        tooltip_idle: "FxTrumpet — idle",
        tooltip_disabled: "FxTrumpet — disabled",
        tooltip_no_card: "FxTrumpet — virtual sound card not installed",
    }
}

/// The mixer and routing window in English.
pub open spec fn en_mixer() -> MixerText {
    MixerText {
        title: "Mixer & routing",
        devices: "Output devices",
        apps: "Applications",
        routing: "Routing rules",
        follow_system: "Follow system (enhanced)",
        bypasses: "bypasses enhancement",
        set_default: "Make default",
        is_default: "Default",
        virtual_card: "virtual card",
        system_sounds: "System Sounds",
        no_devices: "No output devices available",
        no_apps: "No application is playing audio",
        no_routes: "No rules yet. Point an application at a device below to create one.",
        policy_unavailable: "Per-application routing is unavailable on this build (needs Windows 10 1803 or later)",
        method_policy: "system policy",
        method_injection: "injection",
        injection_unavailable: "injection routing is not built in yet; this rule falls back to the system policy",
        routing_hint: "An application on \"follow system\" goes through the virtual card, i.e. enhanced. One pointed at a device bypasses the enhancer.",
        remove: "Remove",
        mute: "Mute",
        unmute: "Unmute",
        streams_suffix: "streams",
    }
}

/// The tuning panel in English.
pub open spec fn en_panel() -> PanelText {
    PanelText {
        enabled: "Enabled",
        status_processing: "processing",
        status_idle: "idle",
        status_no_card: "no virtual sound card",
        preset: "Preset",
        no_selection: "—",
        effects: "Effects",
        effect_fidelity: "Fidelity",
        effect_surround: "Surround",
        effect_ambience: "Ambience",
        effect_dynamic_boost: "Dynamic boost",
        effect_bass: "Bass",
        equalizer: "Equalizer",
        bands: "Bands",
        eq_hint: "Drag a dot to set its gain; double-click to reset it",
        eq_reset: "Flatten",
        output: "Output",
        balance: "Balance",
        master_gain: "Master gain",
        normalization: "Normalization",
        volume_leveling: "Volume leveling",
        filter_q: "Filter Q",
        spectrum: "Spectrum",
        save_name_hint: "Preset name",
        save_button: "Save",
        save_help: "Stores the current effects, equalizer and output settings as a .fac file, selectable from the tray menu or the list above.",
        save_where: "Saved into %APPDATA%\\FxTrumpet\\presets",
        device_in_prefix: "In",
        device_out_prefix: "Out",
        latency_label: "latency",
        underruns_label: "underruns",
        drops_label: "drops",
        frames_unit: "frames",
        groups_by_ten_thousand: false,
        saved_ok: "Saved {}",
        save_name_required: "Give the preset a name first",
        save_name_invalid: "The name has a character Windows forbids in a filename (\\ / : * ? \" < > |), or collides with a reserved device name",
        save_overwrote: "Overwrote {}",
        save_failed: "Could not save; see the log",
    }
}

/// The interface in English.
pub open spec fn en_strings() -> Strings {
    Strings { tray: en_tray(), panel: en_panel(), mixer: en_mixer() }
}

/// Executable [`en_strings`].
pub fn en() -> (r: Strings)
    ensures
        r == en_strings(),
{
    Strings {
        tray: TrayText {
            enabled: "Enabled",
            route_through: "Route output via FxTrumpet",
            route_through_done: "Output routed via FxTrumpet",
            panel: "Tuning panel…",
            mixer: "Mixer & routing…",
            presets: "Presets",
            no_presets: "(none found)",
            autostart: "Start with Windows",
            install_driver: "Install sound card…",
            remove_driver: "Remove sound card",
            rescan: "Rescan presets",
            language: "Language",
            quit: "Quit",
            no_preset: "no preset",
            not_enhanced: "output is NOT enhanced (default device is not the virtual card)",
            tooltip_idle: "FxTrumpet — idle",
            tooltip_disabled: "FxTrumpet — disabled",
            tooltip_no_card: "FxTrumpet — virtual sound card not installed",
        },
        panel: PanelText {
            enabled: "Enabled",
            status_processing: "processing",
            status_idle: "idle",
            status_no_card: "no virtual sound card",
            preset: "Preset",
            no_selection: "—",
            effects: "Effects",
            effect_fidelity: "Fidelity",
            effect_surround: "Surround",
            effect_ambience: "Ambience",
            effect_dynamic_boost: "Dynamic boost",
            effect_bass: "Bass",
            equalizer: "Equalizer",
            bands: "Bands",
            eq_hint: "Drag a dot to set its gain; double-click to reset it",
            eq_reset: "Flatten",
            output: "Output",
            balance: "Balance",
            master_gain: "Master gain",
            normalization: "Normalization",
            volume_leveling: "Volume leveling",
            filter_q: "Filter Q",
            spectrum: "Spectrum",
            save_name_hint: "Preset name",
            save_button: "Save",
            save_help: "Stores the current effects, equalizer and output settings as a .fac file, selectable from the tray menu or the list above.",
            save_where: "Saved into %APPDATA%\\FxTrumpet\\presets",
            device_in_prefix: "In",
            device_out_prefix: "Out",
            latency_label: "latency",
            underruns_label: "underruns",
            drops_label: "drops",
            frames_unit: "frames",
            groups_by_ten_thousand: false,
            saved_ok: "Saved {}",
            save_name_required: "Give the preset a name first",
            save_name_invalid: "The name has a character Windows forbids in a filename (\\ / : * ? \" < > |), or collides with a reserved device name",
            save_overwrote: "Overwrote {}",
            save_failed: "Could not save; see the log",
        },
        mixer: MixerText {
            title: "Mixer & routing",
            devices: "Output devices",
            apps: "Applications",
            routing: "Routing rules",
            follow_system: "Follow system (enhanced)",
            bypasses: "bypasses enhancement",
            set_default: "Make default",
            is_default: "Default",
            virtual_card: "virtual card",
            system_sounds: "System Sounds",
            no_devices: "No output devices available",
            no_apps: "No application is playing audio",
            no_routes: "No rules yet. Point an application at a device below to create one.",
            policy_unavailable: "Per-application routing is unavailable on this build (needs Windows 10 1803 or later)",
            method_policy: "system policy",
            method_injection: "injection",
            injection_unavailable: "injection routing is not built in yet; this rule falls back to the system policy",
            routing_hint: "An application on \"follow system\" goes through the virtual card, i.e. enhanced. One pointed at a device bypasses the enhancer.",
            remove: "Remove",
            mute: "Mute",
            unmute: "Unmute",
            streams_suffix: "streams",
        },
    }
}

/// Whether a text shows anything: it starts with something other than white
/// space.
pub open spec fn is_shown(s: Seq<char>) -> bool {
    s.len() > 0 && !is_white(s[0])
}

/// Whether every text of a table shows something.
pub open spec fn tray_is_shown(t: TrayText) -> bool {
    &&& is_shown(t.enabled@)
    &&& is_shown(t.route_through@)
    &&& is_shown(t.route_through_done@)
    &&& is_shown(t.panel@)
    &&& is_shown(t.mixer@)
    &&& is_shown(t.presets@)
    &&& is_shown(t.no_presets@)
    &&& is_shown(t.autostart@)
    &&& is_shown(t.install_driver@)
    &&& is_shown(t.remove_driver@)
    &&& is_shown(t.rescan@)
    &&& is_shown(t.language@)
    &&& is_shown(t.quit@)
    &&& is_shown(t.no_preset@)
    &&& is_shown(t.not_enhanced@)
    &&& is_shown(t.tooltip_idle@)
    &&& is_shown(t.tooltip_disabled@)
    &&& is_shown(t.tooltip_no_card@)
}

/// Whether every text of a table shows something.
pub open spec fn mixer_is_shown(t: MixerText) -> bool {
    &&& is_shown(t.title@)
    &&& is_shown(t.devices@)
    &&& is_shown(t.apps@)
    &&& is_shown(t.routing@)
    &&& is_shown(t.follow_system@)
    &&& is_shown(t.bypasses@)
    &&& is_shown(t.set_default@)
    &&& is_shown(t.is_default@)
    &&& is_shown(t.virtual_card@)
    &&& is_shown(t.system_sounds@)
    &&& is_shown(t.no_devices@)
    &&& is_shown(t.no_apps@)
    &&& is_shown(t.no_routes@)
    &&& is_shown(t.policy_unavailable@)
    &&& is_shown(t.method_policy@)
    &&& is_shown(t.method_injection@)
    &&& is_shown(t.injection_unavailable@)
    &&& is_shown(t.routing_hint@)
    &&& is_shown(t.remove@)
    &&& is_shown(t.mute@)
    &&& is_shown(t.unmute@)
    &&& is_shown(t.streams_suffix@)
}

/// Whether every text of a table shows something.
pub open spec fn panel_is_shown(t: PanelText) -> bool {
    &&& is_shown(t.enabled@)
    &&& is_shown(t.status_processing@)
    &&& is_shown(t.status_idle@)
    &&& is_shown(t.status_no_card@)
    &&& is_shown(t.preset@)
    &&& is_shown(t.no_selection@)
    &&& is_shown(t.effects@)
    &&& is_shown(t.effect_fidelity@)
    &&& is_shown(t.effect_surround@)
    &&& is_shown(t.effect_ambience@)
    &&& is_shown(t.effect_dynamic_boost@)
    &&& is_shown(t.effect_bass@)
    &&& is_shown(t.equalizer@)
    &&& is_shown(t.bands@)
    &&& is_shown(t.eq_hint@)
    &&& is_shown(t.eq_reset@)
    &&& is_shown(t.output@)
    &&& is_shown(t.balance@)
    &&& is_shown(t.master_gain@)
    &&& is_shown(t.normalization@)
    &&& is_shown(t.volume_leveling@)
    &&& is_shown(t.filter_q@)
    &&& is_shown(t.spectrum@)
    &&& is_shown(t.save_name_hint@)
    &&& is_shown(t.save_button@)
    &&& is_shown(t.save_help@)
    &&& is_shown(t.save_where@)
    &&& is_shown(t.device_in_prefix@)
    &&& is_shown(t.device_out_prefix@)
    &&& is_shown(t.latency_label@)
    &&& is_shown(t.underruns_label@)
    &&& is_shown(t.drops_label@)
    &&& is_shown(t.frames_unit@)
    &&& is_shown(t.saved_ok@)
    &&& is_shown(t.save_name_required@)
    &&& is_shown(t.save_name_invalid@)
    &&& is_shown(t.save_overwrote@)
    &&& is_shown(t.save_failed@)
}

proof fn lemma_zh_tray()
    ensures
        tray_is_shown(zh_tray()),
{
    reveal_strlit("启用音效");
    reveal_strlit("输出走 FxTrumpet");
    reveal_strlit("输出已走 FxTrumpet");
    reveal_strlit("调音面板…");
    reveal_strlit("混音器与路由…");
    reveal_strlit("预设");
    reveal_strlit("（无预设）");
    reveal_strlit("开机自启");
    reveal_strlit("安装虚拟声卡…");
    reveal_strlit("卸载虚拟声卡");
    reveal_strlit("重新扫描预设");
    reveal_strlit("语言");
    reveal_strlit("退出");
    reveal_strlit("无预设");
    reveal_strlit("输出未经增强（默认设备不是虚拟声卡）");
    reveal_strlit("FxTrumpet — 空闲");
    reveal_strlit("FxTrumpet — 已停用");
    reveal_strlit("FxTrumpet — 未安装虚拟声卡");
}

proof fn lemma_zh_mixer()
    ensures
        mixer_is_shown(zh_mixer()),
{
    reveal_strlit("混音器与路由");
    reveal_strlit("输出设备");
    reveal_strlit("应用程序");
    reveal_strlit("路由规则");
    reveal_strlit("跟随系统（经过增强）");
    reveal_strlit("绕过增强");
    reveal_strlit("设为默认");
    reveal_strlit("当前默认");
    reveal_strlit("虚拟声卡");
    reveal_strlit("系统声音");
    reveal_strlit("没有可用的输出设备");
    reveal_strlit("当前没有应用在播放声音");
    reveal_strlit("暂无规则。在下方把某个应用指到指定设备即可建立规则。");
    reveal_strlit("此系统不支持按应用路由（需要 Windows 10 1803 及以上）");
    reveal_strlit("系统策略");
    reveal_strlit("注入");
    reveal_strlit("注入式路由尚未构建进来，该规则会退回系统策略");
    reveal_strlit("「跟随系统」的应用走虚拟声卡，即经过增强；指到具体设备的应用会绕过增强。");
    reveal_strlit("删除");
    reveal_strlit("静音");
    reveal_strlit("取消静音");
    reveal_strlit("条流");
}

proof fn lemma_zh_panel()
    ensures
        panel_is_shown(zh_panel()),
{
    reveal_strlit("启用");
    reveal_strlit("处理中");
    reveal_strlit("空闲");
    reveal_strlit("未安装虚拟声卡");
    reveal_strlit("预设");
    reveal_strlit("—");
    reveal_strlit("音效");
    reveal_strlit("保真度");
    reveal_strlit("环绕");
    reveal_strlit("空间感");
    reveal_strlit("动态增强");
    reveal_strlit("低音");
    reveal_strlit("均衡器");
    reveal_strlit("频段数");
    reveal_strlit("拖动圆点调增益，双击归零");
    reveal_strlit("归零");
    reveal_strlit("输出");
    reveal_strlit("左右平衡");
    reveal_strlit("总增益");
    reveal_strlit("响度归一");
    reveal_strlit("音量均衡");
    reveal_strlit("滤波器 Q 值");
    reveal_strlit("频谱");
    reveal_strlit("预设名称");
    reveal_strlit("保存");
    reveal_strlit("把当前的音效、均衡与输出设置存成一个 .fac 文件，之后可在托盘菜单或上方列表中选用。");
    reveal_strlit("存入 %APPDATA%\\FxTrumpet\\presets");
    reveal_strlit("输入");
    reveal_strlit("延迟");
    reveal_strlit("欠载");
    reveal_strlit("丢帧");
    reveal_strlit("帧");
    reveal_strlit("已保存 {}");
    reveal_strlit("请先填写预设名称");
    reveal_strlit("名称含文件名不允许的字符（\\ / : * ? \" < > |），或与系统保留名重名");
    reveal_strlit("已覆盖 {}");
    reveal_strlit("保存失败，详见日志");
}

proof fn lemma_en_tray()
    ensures
        tray_is_shown(en_tray()),
{
    reveal_strlit("Enabled");
    reveal_strlit("Route output via FxTrumpet");
    reveal_strlit("Output routed via FxTrumpet");
    reveal_strlit("Tuning panel…");
    reveal_strlit("Mixer & routing…");
    reveal_strlit("Presets");
    reveal_strlit("(none found)");
    reveal_strlit("Start with Windows");
    reveal_strlit("Install sound card…");
    reveal_strlit("Remove sound card");
    reveal_strlit("Rescan presets");
    reveal_strlit("Language");
    reveal_strlit("Quit");
    reveal_strlit("no preset");
    reveal_strlit("output is NOT enhanced (default device is not the virtual card)");
    reveal_strlit("FxTrumpet — idle");
    reveal_strlit("FxTrumpet — disabled");
    reveal_strlit("FxTrumpet — virtual sound card not installed");
}

proof fn lemma_en_mixer()
    ensures
        mixer_is_shown(en_mixer()),
{
    reveal_strlit("Mixer & routing");
    reveal_strlit("Output devices");
    reveal_strlit("Applications");
    reveal_strlit("Routing rules");
    reveal_strlit("Follow system (enhanced)");
    reveal_strlit("bypasses enhancement");
    reveal_strlit("Make default");
    reveal_strlit("Default");
    reveal_strlit("virtual card");
    reveal_strlit("System Sounds");
    reveal_strlit("No output devices available");
    reveal_strlit("No application is playing audio");
    reveal_strlit("No rules yet. Point an application at a device below to create one.");
    reveal_strlit("Per-application routing is unavailable on this build (needs Windows 10 1803 or later)");
    reveal_strlit("system policy");
    reveal_strlit("injection");
    reveal_strlit("injection routing is not built in yet; this rule falls back to the system policy");
    reveal_strlit("An application on \"follow system\" goes through the virtual card, i.e. enhanced. One pointed at a device bypasses the enhancer.");
    reveal_strlit("Remove");
    reveal_strlit("Mute");
    reveal_strlit("Unmute");
    reveal_strlit("streams");
}

proof fn lemma_en_panel()
    ensures
        panel_is_shown(en_panel()),
{
    reveal_strlit("Enabled");
    reveal_strlit("processing");
    reveal_strlit("idle");
    reveal_strlit("no virtual sound card");
    reveal_strlit("Preset");
    reveal_strlit("—");
    reveal_strlit("Effects");
    reveal_strlit("Fidelity");
    reveal_strlit("Surround");
    reveal_strlit("Ambience");
    reveal_strlit("Dynamic boost");
    reveal_strlit("Bass");
    reveal_strlit("Equalizer");
    reveal_strlit("Bands");
    reveal_strlit("Drag a dot to set its gain; double-click to reset it");
    reveal_strlit("Flatten");
    reveal_strlit("Output");
    reveal_strlit("Balance");
    reveal_strlit("Master gain");
    reveal_strlit("Normalization");
    reveal_strlit("Volume leveling");
    reveal_strlit("Filter Q");
    reveal_strlit("Spectrum");
    reveal_strlit("Preset name");
    reveal_strlit("Save");
    reveal_strlit("Stores the current effects, equalizer and output settings as a .fac file, selectable from the tray menu or the list above.");
    reveal_strlit("Saved into %APPDATA%\\FxTrumpet\\presets");
    reveal_strlit("In");
    reveal_strlit("Out");
    reveal_strlit("latency");
    reveal_strlit("underruns");
    reveal_strlit("drops");
    reveal_strlit("frames");
    reveal_strlit("Saved {}");
    reveal_strlit("Give the preset a name first");
    reveal_strlit("The name has a character Windows forbids in a filename (\\ / : * ? \" < > |), or collides with a reserved device name");
    reveal_strlit("Overwrote {}");
    reveal_strlit("Could not save; see the log");
}

/// No string is missing in either language.
pub proof fn every_string_is_present()
    ensures
        tray_is_shown(zh_tray()) && mixer_is_shown(zh_mixer()) && panel_is_shown(zh_panel()),
        tray_is_shown(en_tray()) && mixer_is_shown(en_mixer()) && panel_is_shown(en_panel()),
{
    lemma_zh_tray();
    lemma_zh_mixer();
    lemma_zh_panel();
    lemma_en_tray();
    lemma_en_mixer();
    lemma_en_panel();
}

} // verus!
