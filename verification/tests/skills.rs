use opsbot::chat::{chat_permitted, extract_install_query, is_asking_skills_list};
use opsbot::model::Skill;
use opsbot::skills::{
    build_prompt_section, build_relevant_context_for_fix, extract_md_section,
    get_install_instructions, list_skills_summary, parse_skill_md, split_frontmatter,
};

fn skill(id: &str, name: &str, desc: &str, hint: &str, install: &str) -> Skill {
    Skill {
        id: id.to_string(),
        name: name.to_string(),
        description: desc.to_string(),
        prompt_hint: hint.to_string(),
        install: install.to_string(),
    }
}

#[test]
fn prompt_section_is_empty_without_skills() {
    assert_eq!(build_prompt_section(&[]), "");
}

#[test]
fn prompt_section_lists_skills_with_hints() {
    let skills = vec![
        skill("a", "Alpha", "d", "use alpha", ""),
        skill("b", "Beta", "d", "", ""),
        skill("c", "Gamma", "d", "use gamma", ""),
    ];
    let s = build_prompt_section(&skills);
    assert_eq!(
        s,
        "\n\n你还可以参考以下已安装的技能，在适当时生成对应命令：\n- [Alpha] use alpha\n- [Gamma] use gamma\n"
    );
}

#[test]
fn summary_counts_and_lists_skills() {
    let skills = vec![
        skill("shot", "Screenshot", "takes screenshots", "", ""),
        skill("rec", "Recorder", "records the screen", "", ""),
    ];
    let s = list_skills_summary(&skills);
    assert_eq!(
        s,
        "已安装 2 个 skill：\n\n• **Screenshot** (shot) — takes screenshots\n• **Recorder** (rec) — records the screen\n\n回复「怎么安装 <技能名>」可查看安装方式。"
    );
    assert_eq!(list_skills_summary(&[]), "当前未安装任何 skill。");
}

#[test]
fn fix_context_matches_skill_domains() {
    let skills = vec![
        skill("screen_record", "Rec", "d", "rec hint", ""),
        skill("screenshot", "Shot", "d", "shot hint", ""),
        skill("other", "Other", "d", "other hint", ""),
    ];
    assert_eq!(
        build_relevant_context_for_fix(&skills, "FFMPEG -f avfoundation -i 1:0"),
        "[Rec] rec hint"
    );
    assert_eq!(build_relevant_context_for_fix(&skills, "scrot /tmp/x.png"), "[Shot] shot hint");
    assert_eq!(
        build_relevant_context_for_fix(&skills, "ffmpeg then scrot"),
        "[Rec] rec hint\n\n[Shot] shot hint"
    );
    assert_eq!(build_relevant_context_for_fix(&skills, "ls -la"), "");
}

#[test]
fn install_lookup_by_id_and_name() {
    let skills = vec![
        skill("screen_record", "Recorder", "d", "h", "brew install ffmpeg"),
        skill("shot", "Screenshot", "d", "h", ""),
    ];
    assert_eq!(
        get_install_instructions(&skills, "Screen_Record"),
        Some("**Recorder** 安装方式：\n\nbrew install ffmpeg".to_string())
    );
    assert_eq!(
        get_install_instructions(&skills, "screensho"),
        Some("「Screenshot」当前无安装说明。".to_string())
    );
    assert_eq!(get_install_instructions(&skills, "unknown"), None);
    assert_eq!(get_install_instructions(&skills, "   "), None);
}

#[test]
fn markdown_descriptor_parses_frontmatter_fields() {
    let md = "---\nname: Screen Shot\ndescription: takes pictures\nprompt_hint: use scrot\ninstall: apt install scrot\n---\nBody text\n";
    let sk = parse_skill_md(md, "shotdir");
    assert_eq!(sk.name, "Screen Shot");
    assert_eq!(sk.description, "takes pictures");
    assert_eq!(sk.prompt_hint, "use scrot");
    assert_eq!(sk.install, "apt install scrot");
    assert_eq!(sk.id, "Screen_Shot");
}

#[test]
fn markdown_defaults_fill_missing_fields() {
    let md = "---\ndescription: only a description\n---\n## 安装\nrun the installer\n\n## Usage\nother\n";
    let sk = parse_skill_md(md, "mydir");
    assert_eq!(sk.name, "mydir");
    assert_eq!(sk.prompt_hint, "only a description");
    assert_eq!(sk.install, "run the installer");
    assert_eq!(sk.id, "mydir");
}

#[test]
fn frontmatter_splits_at_the_closing_fence() {
    let (front, body) = split_frontmatter("---\nname: X\n---\nthe body");
    assert_eq!(front, "name: X");
    assert_eq!(body, "the body");
    let (front2, body2) = split_frontmatter("no fences here");
    assert_eq!(front2, "");
    assert_eq!(body2, "no fences here");
}

#[test]
fn md_section_stops_at_the_next_heading() {
    let body = "intro\n## 安装\nstep one\nstep two\n## Other\nrest";
    assert_eq!(extract_md_section(body, "安装"), "step one\nstep two");
    assert_eq!(extract_md_section(body, "missing"), "");
}

#[test]
fn skills_list_questions_are_recognized() {
    assert!(is_asking_skills_list("有哪些技能？"));
    assert!(is_asking_skills_list("please List Skills for me"));
    assert!(!is_asking_skills_list("帮我截图"));
}

#[test]
fn install_question_yields_the_skill_name() {
    assert_eq!(extract_install_query("怎么安装 ffmpeg？"), Some("ffmpeg".to_string()));
    assert_eq!(extract_install_query("如何安装截图工具。谢谢"), Some("截图工具".to_string()));
    assert_eq!(extract_install_query("怎么安装？"), None);
    assert_eq!(extract_install_query("你好"), None);
}

#[test]
fn chat_permission_honours_the_allow_list() {
    assert!(chat_permitted(&Vec::new(), 42));
    assert!(chat_permitted(&vec![1, 42], 42));
    assert!(!chat_permitted(&vec![1, 2], 42));
}
