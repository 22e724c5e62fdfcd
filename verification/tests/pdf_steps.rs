use markpad::pdf::{
    advance, begin, file_url, print_settings, ExportStage, ExportState, ExportStep, PrintSettings,
    SETTLE_DELAY_MS,
};

fn whole_plan() -> Vec<ExportStep> {
    vec![
        ExportStep::Report(ExportStage::Html),
        ExportStep::ResolveDataDir,
        ExportStep::WriteHtml,
        ExportStep::Report(ExportStage::Browser),
        ExportStep::LaunchBrowser,
        ExportStep::OpenTab,
        ExportStep::Report(ExportStage::Load),
        ExportStep::Navigate,
        ExportStep::AwaitNavigation,
        ExportStep::Settle,
        ExportStep::Report(ExportStage::Pdf),
        ExportStep::PrintPdf,
        ExportStep::Report(ExportStage::Complete),
        ExportStep::WritePdf,
        ExportStep::RemoveHtml,
    ]
}

/// Runs an export in which the step at `failing`, if any, fails with
/// `detail`, and returns the steps performed and the final state.
fn run_export(failing: Option<usize>, detail: &str) -> (Vec<ExportStep>, ExportState) {
    let mut performed: Vec<ExportStep> = Vec::new();
    let mut state = begin();
    while let ExportState::Running(step) = state {
        let outcome: Result<(), String> = if Some(performed.len()) == failing {
            Err(detail.to_string())
        } else {
            Ok(())
        };
        performed.push(step);
        state = advance(step, outcome);
        assert!(performed.len() <= 100);
    }
    (performed, state)
}

#[test]
fn export_starts_by_announcing_html() {
    assert_eq!(begin(), ExportState::Running(ExportStep::Report(ExportStage::Html)));
    assert_eq!(
        advance(ExportStep::Report(ExportStage::Html), Ok(())),
        ExportState::Running(ExportStep::ResolveDataDir)
    );
}

#[test]
fn successful_export_performs_the_whole_plan() {
    let (performed, state) = run_export(None, "");
    assert_eq!(performed, whole_plan());
    assert_eq!(state, ExportState::Done);
}

#[test]
fn successful_export_announces_five_stages_in_order() {
    let (performed, _) = run_export(None, "");
    let mut names: Vec<String> = Vec::new();
    let mut percents: Vec<u8> = Vec::new();
    let mut messages: Vec<String> = Vec::new();
    for step in performed {
        if let ExportStep::Report(stage) = step {
            let event = stage.event();
            names.push(event.stage);
            percents.push(event.progress);
            messages.push(event.message);
        }
    }
    assert_eq!(names, vec!["html", "browser", "load", "pdf", "complete"]);
    assert_eq!(percents, vec![20u8, 40u8, 60u8, 80u8, 100u8]);
    assert_eq!(
        messages,
        vec![
            "生成HTML文档...",
            "启动浏览器引擎...",
            "加载文档内容...",
            "生成PDF文件...",
            "导出完成！"
        ]
    );
}

#[test]
fn stage_accessors_agree_with_event() {
    let stages = vec![
        ExportStage::Html,
        ExportStage::Browser,
        ExportStage::Load,
        ExportStage::Pdf,
        ExportStage::Complete,
    ];
    for (position, stage) in stages.iter().enumerate() {
        let event = stage.event();
        assert_eq!(event.stage, stage.name());
        assert_eq!(event.message, stage.message());
        assert_eq!(event.progress, stage.progress());
        assert_eq!(stage.progress() as usize, 20 * (position + 1));
        assert_eq!(stage.next(), stages.get(position + 1).copied());
    }
}

#[test]
fn any_failure_but_the_cleanup_ends_the_export_at_once() {
    let plan = whole_plan();
    for failing in 0..plan.len() {
        let (performed, state) = run_export(Some(failing), "disk full");
        match plan[failing] {
            ExportStep::RemoveHtml => {
                assert_eq!(performed, plan);
                assert_eq!(state, ExportState::Done);
            }
            ExportStep::LaunchBrowser => {
                assert_eq!(performed, plan[..=failing].to_vec());
                assert_eq!(
                    state,
                    ExportState::Failed("Failed to launch browser: disk full".to_string())
                );
            }
            _ => {
                assert_eq!(performed, plan[..=failing].to_vec());
                assert_eq!(state, ExportState::Failed("disk full".to_string()));
            }
        }
    }
}

#[test]
fn failed_navigation_is_reported_after_three_announcements() {
    let (performed, state) = run_export(Some(7), "net::ERR_FILE_NOT_FOUND");
    let announced: Vec<ExportStage> = performed
        .iter()
        .filter_map(|step| match step {
            ExportStep::Report(stage) => Some(*stage),
            _ => None,
        })
        .collect();
    assert_eq!(announced, vec![ExportStage::Html, ExportStage::Browser, ExportStage::Load]);
    assert_eq!(performed.last(), Some(&ExportStep::Navigate));
    assert_eq!(state, ExportState::Failed("net::ERR_FILE_NOT_FOUND".to_string()));
}

#[test]
fn opening_a_tab_fails_without_the_launch_prefix() {
    assert_eq!(
        advance(ExportStep::OpenTab, Err("no tab".to_string())),
        ExportState::Failed("no tab".to_string())
    );
    assert_eq!(
        advance(ExportStep::LaunchBrowser, Err(String::new())),
        ExportState::Failed("Failed to launch browser: ".to_string())
    );
}

#[test]
fn pdf_is_written_after_completion_is_announced() {
    assert_eq!(
        advance(ExportStep::PrintPdf, Ok(())),
        ExportState::Running(ExportStep::Report(ExportStage::Complete))
    );
    assert_eq!(
        advance(ExportStep::Report(ExportStage::Complete), Ok(())),
        ExportState::Running(ExportStep::WritePdf)
    );
    assert_eq!(advance(ExportStep::WritePdf, Ok(())), ExportState::Running(ExportStep::RemoveHtml));
    assert_eq!(advance(ExportStep::RemoveHtml, Ok(())), ExportState::Done);
    assert_eq!(advance(ExportStep::RemoveHtml, Err("gone".to_string())), ExportState::Done);
}

#[test]
fn print_settings_are_a4_portrait() {
    assert_eq!(
        print_settings(),
        PrintSettings {
            landscape: false,
            display_header_footer: false,
            print_background: true,
            scale_percent: 100,
            paper_width: 827,
            paper_height: 1169,
            margin_top: 40,
            margin_bottom: 40,
            margin_left: 40,
            margin_right: 40,
            prefer_css_page_size: false,
        }
    );
    let settings = print_settings();
    assert_eq!(settings.paper_width as f64 / 100.0, 8.27);
    assert_eq!(settings.paper_height as f64 / 100.0, 11.69);
    assert_eq!(settings.margin_top as f64 / 100.0, 0.4);
    assert_eq!(settings.scale_percent as f64 / 100.0, 1.0);
}

#[test]
fn settle_delay_is_half_a_second() {
    assert_eq!(SETTLE_DELAY_MS, 500);
}

#[test]
fn file_url_prefixes_the_path() {
    assert_eq!(file_url("/opt/app/data/temp_export.html"), "file:///opt/app/data/temp_export.html");
    assert_eq!(file_url(""), "file://");
    assert_eq!(file_url("C:\\笔记\\temp_export.html"), "file://C:\\笔记\\temp_export.html");
}
