use shaders::context::{Context, ContextError, UploadError};
use shaders::program::{ActiveVar, LinkReport, Program};
use shaders::shader::{CompileReport, Shader};
use shaders::stage::ShaderStage;
use shaders::uniform::{Uniform, UniformValue};

fn linked(handle: u32, uniforms: Vec<ActiveVar>) -> Program {
    let v = Shader::from_report(
        ShaderStage::Vertex,
        CompileReport { handle: 1, status_ok: true, info_log: String::new() },
    )
    .unwrap();
    let f = Shader::from_report(
        ShaderStage::Fragment,
        CompileReport { handle: 2, status_ok: true, info_log: String::new() },
    )
    .unwrap();
    let plan = Program::plan_link(&vec![v, f]).unwrap();
    Program::from_report(
        plan,
        LinkReport {
            handle,
            status_ok: true,
            info_log: String::new(),
            attribs: Vec::new(),
            uniforms,
        },
    )
    .unwrap()
}

fn var(name: &str, location: i32) -> ActiveVar {
    ActiveVar { name: name.to_string(), location }
}

#[test]
fn register_bind_upload_read_back() {
    let p = linked(3, vec![var("alpha", 0)]);
    let mut ctx = Context::new();
    ctx.register(&p).unwrap();
    ctx.use_prog(&p).unwrap();
    let alpha = p.get_unif(&"alpha".to_string()).unwrap();
    alpha.upload_1f(&mut ctx, 0.5f32.to_bits()).unwrap();
    let v = ctx.lookup_value(3, 0).unwrap();
    assert_eq!(*v, UniformValue::Float1(0.5f32.to_bits()));
}

#[test]
fn register_twice_is_refused() {
    let p = linked(3, Vec::new());
    let mut ctx = Context::new();
    ctx.register(&p).unwrap();
    assert_eq!(ctx.register(&p).unwrap_err(), ContextError::AlreadyRegistered);
}

#[test]
fn binding_an_unregistered_program_is_refused() {
    let p = linked(3, Vec::new());
    let mut ctx = Context::new();
    assert_eq!(ctx.use_prog(&p).unwrap_err(), ContextError::NotRegistered);
}

#[test]
fn upload_without_binding_is_refused() {
    let p = linked(3, vec![var("alpha", 0)]);
    let mut ctx = Context::new();
    ctx.register(&p).unwrap();
    let alpha = p.get_unif(&"alpha".to_string()).unwrap();
    assert_eq!(alpha.upload_1f(&mut ctx, 0).unwrap_err(), UploadError::ProgramNotBound);
    assert!(ctx.lookup_value(3, 0).is_none());
}

#[test]
fn upload_to_unbound_program_is_refused() {
    let p = linked(3, vec![var("alpha", 0)]);
    let q = linked(4, vec![var("beta", 0)]);
    let mut ctx = Context::new();
    ctx.register(&p).unwrap();
    ctx.register(&q).unwrap();
    ctx.use_prog(&p).unwrap();
    let beta = q.get_unif(&"beta".to_string()).unwrap();
    assert_eq!(beta.upload_1i(&mut ctx, 1).unwrap_err(), UploadError::ProgramNotBound);
    assert!(ctx.lookup_value(4, 0).is_none());
}

#[test]
fn wrong_matrix_size_is_refused_and_changes_nothing() {
    let p = linked(3, vec![var("model", 2)]);
    let mut ctx = Context::new();
    ctx.register(&p).unwrap();
    ctx.use_prog(&p).unwrap();
    let model = p.get_unif(&"model".to_string()).unwrap();
    let short = vec![0u32; 15];
    assert_eq!(model.upload_m4f(&mut ctx, short).unwrap_err(), UploadError::MalformedMatrix);
    assert!(ctx.lookup_value(3, 2).is_none());
}

#[test]
fn uploads_do_not_cross_talk() {
    let p = linked(3, vec![var("model", 0), var("view", 1), var("alpha", 2)]);
    let mut ctx = Context::new();
    ctx.register(&p).unwrap();
    ctx.use_prog(&p).unwrap();
    let model = p.get_unif(&"model".to_string()).unwrap();
    let view = p.get_unif(&"view".to_string()).unwrap();
    let alpha = p.get_unif(&"alpha".to_string()).unwrap();

    let identity: Vec<u32> = (0..16)
        .map(|i| if i % 5 == 0 { 1.0f32.to_bits() } else { 0.0f32.to_bits() })
        .collect();
    model.upload_m4f(&mut ctx, identity.clone()).unwrap();
    view.upload_3f(&mut ctx, 1.2f32.to_bits(), 1.2f32.to_bits(), 1.2f32.to_bits()).unwrap();
    alpha.upload_1f(&mut ctx, 0.25f32.to_bits()).unwrap();

    // overwrite one uniform; the others keep their values
    alpha.upload_1f(&mut ctx, 0.75f32.to_bits()).unwrap();

    assert_eq!(*ctx.lookup_value(3, 0).unwrap(), UniformValue::Mat4(identity));
    assert_eq!(
        *ctx.lookup_value(3, 1).unwrap(),
        UniformValue::Float3(1.2f32.to_bits(), 1.2f32.to_bits(), 1.2f32.to_bits())
    );
    assert_eq!(*ctx.lookup_value(3, 2).unwrap(), UniformValue::Float1(0.75f32.to_bits()));
}

#[test]
fn uploads_do_not_leak_across_programs() {
    let p = linked(3, vec![var("alpha", 0)]);
    let q = linked(4, vec![var("alpha", 0)]);
    let mut ctx = Context::new();
    ctx.register(&p).unwrap();
    ctx.register(&q).unwrap();
    ctx.use_prog(&p).unwrap();
    p.get_unif(&"alpha".to_string()).unwrap().upload_1i(&mut ctx, 7).unwrap();
    ctx.use_prog(&q).unwrap();
    q.get_unif(&"alpha".to_string()).unwrap().upload_1i(&mut ctx, 9).unwrap();
    assert_eq!(*ctx.lookup_value(3, 0).unwrap(), UniformValue::Int1(7));
    assert_eq!(*ctx.lookup_value(4, 0).unwrap(), UniformValue::Int1(9));
}

#[test]
fn rebinding_keeps_recorded_values() {
    let p = linked(3, vec![var("alpha", 0)]);
    let q = linked(4, Vec::new());
    let mut ctx = Context::new();
    ctx.register(&p).unwrap();
    ctx.register(&q).unwrap();
    ctx.use_prog(&p).unwrap();
    p.get_unif(&"alpha".to_string()).unwrap().upload_1i(&mut ctx, 7).unwrap();
    ctx.use_prog(&q).unwrap();
    assert_eq!(ctx.bound, Some(4));
    assert_eq!(*ctx.lookup_value(3, 0).unwrap(), UniformValue::Int1(7));
}

#[test]
fn direct_upload_checks_the_bound_program() {
    let p = linked(3, Vec::new());
    let mut ctx = Context::new();
    ctx.register(&p).unwrap();
    ctx.use_prog(&p).unwrap();
    let u = Uniform { program: 3, location: 5 };
    ctx.upload(&u, UniformValue::Int1(-4)).unwrap();
    assert_eq!(*ctx.lookup_value(3, 5).unwrap(), UniformValue::Int1(-4));
}
