use shaders::program::{LinkReport, Program, ProgramError};
use shaders::shader::{CompileReport, Shader};
use shaders::stage::ShaderStage;

fn ok_compile(handle: u32) -> CompileReport {
    CompileReport { handle, status_ok: true, info_log: String::new() }
}

#[test]
fn compile_ok_yields_handle() {
    let s = Shader::from_report(ShaderStage::Vertex, ok_compile(7)).unwrap();
    assert_eq!(s.handle, 7);
    assert_eq!(s.stage, ShaderStage::Vertex);
}

#[test]
fn compile_request_carries_stage_and_source() {
    let req = Shader::request(ShaderStage::Fragment, "void main(){}".to_string());
    assert_eq!(req.stage, ShaderStage::Fragment);
    assert_eq!(req.source, "void main(){}");
}

#[test]
fn compile_failure_keeps_driver_diagnostic() {
    let report = CompileReport {
        handle: 7,
        status_ok: false,
        info_log: "0:1: syntax error".to_string(),
    };
    let e = Shader::from_report(ShaderStage::Vertex, report).unwrap_err();
    assert_eq!(e.log, "0:1: syntax error");
    assert_eq!(e.stage, ShaderStage::Vertex);
}

#[test]
fn compile_failure_without_log_still_reports() {
    let report = CompileReport { handle: 7, status_ok: false, info_log: String::new() };
    let e = Shader::from_report(ShaderStage::Fragment, report).unwrap_err();
    assert!(!e.log.is_empty());
}

#[test]
fn compile_zero_handle_is_a_failure() {
    let report = CompileReport { handle: 0, status_ok: true, info_log: String::new() };
    let e = Shader::from_report(ShaderStage::Vertex, report).unwrap_err();
    assert!(!e.log.is_empty());
}

#[test]
fn plan_link_accepts_one_of_each_stage() {
    let v = Shader::from_report(ShaderStage::Vertex, ok_compile(1)).unwrap();
    let f = Shader::from_report(ShaderStage::Fragment, ok_compile(2)).unwrap();
    let plan = Program::plan_link(&vec![v, f]).unwrap();
    assert_eq!(plan.vertex.handle, 1);
    assert_eq!(plan.fragment.handle, 2);
}

#[test]
fn plan_link_order_does_not_matter() {
    let v = Shader::from_report(ShaderStage::Vertex, ok_compile(1)).unwrap();
    let f = Shader::from_report(ShaderStage::Fragment, ok_compile(2)).unwrap();
    let plan = Program::plan_link(&vec![f, v]).unwrap();
    assert_eq!(plan.vertex.handle, 1);
    assert_eq!(plan.fragment.handle, 2);
}

#[test]
fn plan_link_rejects_missing_vertex() {
    let f = Shader::from_report(ShaderStage::Fragment, ok_compile(2)).unwrap();
    let e = Program::plan_link(&vec![f]).unwrap_err();
    assert!(matches!(e, ProgramError::MissingStage(ShaderStage::Vertex)));
}

#[test]
fn plan_link_rejects_missing_fragment() {
    let v = Shader::from_report(ShaderStage::Vertex, ok_compile(1)).unwrap();
    let e = Program::plan_link(&vec![v]).unwrap_err();
    assert!(matches!(e, ProgramError::MissingStage(ShaderStage::Fragment)));
}

#[test]
fn plan_link_rejects_empty_set() {
    let e = Program::plan_link(&Vec::new()).unwrap_err();
    assert!(matches!(e, ProgramError::MissingStage(ShaderStage::Vertex)));
}

#[test]
fn plan_link_rejects_duplicate_vertex() {
    let v1 = Shader::from_report(ShaderStage::Vertex, ok_compile(1)).unwrap();
    let v2 = Shader::from_report(ShaderStage::Vertex, ok_compile(3)).unwrap();
    let f = Shader::from_report(ShaderStage::Fragment, ok_compile(2)).unwrap();
    let e = Program::plan_link(&vec![v1, f, v2]).unwrap_err();
    assert!(matches!(e, ProgramError::DuplicateStage(ShaderStage::Vertex)));
}

#[test]
fn plan_link_rejects_duplicate_fragment() {
    let v = Shader::from_report(ShaderStage::Vertex, ok_compile(1)).unwrap();
    let f1 = Shader::from_report(ShaderStage::Fragment, ok_compile(2)).unwrap();
    let f2 = Shader::from_report(ShaderStage::Fragment, ok_compile(4)).unwrap();
    let e = Program::plan_link(&vec![v, f1, f2]).unwrap_err();
    assert!(matches!(e, ProgramError::DuplicateStage(ShaderStage::Fragment)));
}

#[test]
fn link_failure_keeps_driver_diagnostic() {
    let v = Shader::from_report(ShaderStage::Vertex, ok_compile(1)).unwrap();
    let f = Shader::from_report(ShaderStage::Fragment, ok_compile(2)).unwrap();
    let plan = Program::plan_link(&vec![v, f]).unwrap();
    let report = LinkReport {
        handle: 3,
        status_ok: false,
        info_log: "link error: missing entry point".to_string(),
        attribs: Vec::new(),
        uniforms: Vec::new(),
    };
    match Program::from_report(plan, report).unwrap_err() {
        ProgramError::LinkFailed { log } => assert_eq!(log, "link error: missing entry point"),
        other => panic!("unexpected error: {:?}", other),
    }
}

#[test]
fn link_failure_without_log_still_reports() {
    let v = Shader::from_report(ShaderStage::Vertex, ok_compile(1)).unwrap();
    let f = Shader::from_report(ShaderStage::Fragment, ok_compile(2)).unwrap();
    let plan = Program::plan_link(&vec![v, f]).unwrap();
    let report = LinkReport {
        handle: 0,
        status_ok: true,
        info_log: String::new(),
        attribs: Vec::new(),
        uniforms: Vec::new(),
    };
    match Program::from_report(plan, report).unwrap_err() {
        ProgramError::LinkFailed { log } => assert!(!log.is_empty()),
        other => panic!("unexpected error: {:?}", other),
    }
}

#[test]
fn trivial_pair_compiles_and_links() {
    let vertex_source = "void main(){gl_Position=vec4(0,0,0,1);}".to_string();
    let fragment_source = "void main(){}".to_string();

    let vertex_request = Shader::request(ShaderStage::Vertex, vertex_source);
    assert_eq!(vertex_request.stage, ShaderStage::Vertex);
    let vertex = Shader::from_report(
        vertex_request.stage,
        CompileReport { handle: 1, status_ok: true, info_log: String::new() },
    )
    .unwrap();

    let fragment_request = Shader::request(ShaderStage::Fragment, fragment_source);
    let fragment = Shader::from_report(
        fragment_request.stage,
        CompileReport { handle: 2, status_ok: true, info_log: String::new() },
    )
    .unwrap();

    let plan = Program::plan_link(&vec![vertex, fragment]).unwrap();
    let program = Program::from_report(
        plan,
        LinkReport {
            handle: 3,
            status_ok: true,
            info_log: String::new(),
            attribs: Vec::new(),
            uniforms: Vec::new(),
        },
    )
    .unwrap();
    assert_eq!(program.handle, 3);
    assert_eq!(program.vertex.handle, 1);
    assert_eq!(program.fragment.handle, 2);
}
