use std::cell::RefCell;
use std::collections::HashMap;

use rquickjs_extension::{
    Extension, ExtensionBuilder, ExtensionError, GlobalInitializer, GlobalsOnly, Implementation,
    ModuleImpl, ModuleLoader, ModuleResolver, OptionsStore,
};

#[derive(Debug, Clone, PartialEq)]
struct PrinterOptions {
    target: String,
}

type Globals = RefCell<HashMap<String, String>>;
type GlobalsFn = fn(&Globals, &PrinterOptions) -> Result<(), String>;
type Printer = Extension<&'static str, PrinterOptions, GlobalsFn>;
type Artifacts = (
    ModuleLoader<&'static str>,
    ModuleResolver,
    GlobalInitializer<PrinterOptions, GlobalsFn>,
);

fn print(options: &PrinterOptions) -> String {
    format!("hello {}", options.target)
}

fn install_printer(globals: &Globals, options: &PrinterOptions) -> Result<(), String> {
    globals
        .borrow_mut()
        .insert("global_printer".to_string(), print(options));
    Ok(())
}

fn install_nothing(_globals: &Globals, _options: &PrinterOptions) -> Result<(), String> {
    Ok(())
}

fn install_failing(_globals: &Globals, options: &PrinterOptions) -> Result<(), String> {
    Err(format!("cannot install {}", options.target))
}

fn printer_module(module: &'static str, target: &str, globals: GlobalsFn) -> Printer {
    Extension {
        implementation: Implementation::Module(ModuleImpl {
            name: "printer".to_string(),
            module,
        }),
        options: PrinterOptions {
            target: target.to_string(),
        },
        globals,
    }
}

fn printer_globals(target: &str, globals: GlobalsFn) -> Printer {
    Extension {
        implementation: Implementation::GlobalsOnly(GlobalsOnly),
        options: PrinterOptions {
            target: target.to_string(),
        },
        globals,
    }
}

fn init_all(
    initializer: GlobalInitializer<PrinterOptions, GlobalsFn>,
    store: &mut OptionsStore<PrinterOptions>,
    globals: &Globals,
) -> Result<(), String> {
    initializer.init(store, |g: &GlobalsFn, o: &PrinterOptions| g(globals, o))
}

fn resolve(resolver: &mut ModuleResolver, base: &str, name: &str) -> Result<String, ExtensionError> {
    let rt = rquickjs::Runtime::new().unwrap();
    let context = rquickjs::Context::full(&rt).unwrap();
    context.with(|ctx| resolver.resolve(&ctx, base, name))
}

fn build(builder: ExtensionBuilder<&'static str, PrinterOptions, GlobalsFn>) -> Artifacts {
    builder.build()
}

#[test]
fn test_extension() {
    let (mut loader, mut resolver, initializer) =
        build(ExtensionBuilder::new().with_extension(printer_module("printer-def", "john", install_printer)));
    assert_eq!(resolve(&mut resolver, "test", "printer"), Ok("printer".to_string()));
    assert_eq!(loader.load("printer"), Ok("printer-def"));

    let mut store = OptionsStore::new();
    let globals = Globals::default();
    init_all(initializer, &mut store, &globals).unwrap();
    assert_eq!(store.evaluate("printer", print), Ok("hello john".to_string()));
}

#[test]
fn test_extension_named() {
    let (mut loader, mut resolver, initializer) = build(
        ExtensionBuilder::new()
            .with_extension_named(printer_module("printer-def", "arnold", install_printer), "custom_printer"),
    );
    assert_eq!(
        resolve(&mut resolver, "test", "custom_printer"),
        Ok("custom_printer".to_string())
    );
    assert!(resolve(&mut resolver, "test", "printer").is_err());
    assert_eq!(loader.load("custom_printer"), Ok("printer-def"));

    let mut store = OptionsStore::new();
    let globals = Globals::default();
    init_all(initializer, &mut store, &globals).unwrap();
    assert_eq!(
        store.evaluate("custom_printer", print),
        Ok("hello arnold".to_string())
    );
}

#[test]
fn test_extension_global() {
    let (_loader, _resolver, initializer) =
        build(ExtensionBuilder::new().with_extension(printer_module("printer-def", "david", install_printer)));
    let mut store = OptionsStore::new();
    let globals = Globals::default();
    init_all(initializer, &mut store, &globals).unwrap();
    assert_eq!(
        globals.borrow().get("global_printer"),
        Some(&"hello david".to_string())
    );
}

#[test]
fn test_global() {
    let (mut loader, mut resolver, initializer) =
        build(ExtensionBuilder::new().with_extension(printer_globals("world", install_printer)));
    let mut store = OptionsStore::new();
    let globals = Globals::default();
    init_all(initializer, &mut store, &globals).unwrap();
    assert_eq!(
        globals.borrow().get("global_printer"),
        Some(&"hello world".to_string())
    );
    assert!(loader.load("").is_err());
    assert!(resolve(&mut resolver, "test", "").is_err());
}

#[test]
fn printer_module_evaluates_with_its_options() {
    let (mut loader, _resolver, initializer) =
        build(ExtensionBuilder::new().with_extension(printer_module("printer-def", "world", install_nothing)));
    let mut store = OptionsStore::new();
    let globals = Globals::default();
    init_all(initializer, &mut store, &globals).unwrap();
    assert_eq!(loader.load("printer"), Ok("printer-def"));
    assert_eq!(store.evaluate("printer", print), Ok("hello world".to_string()));
    assert_eq!(
        store.evaluate("printer", |o: &PrinterOptions| o.clone()),
        Ok(PrinterOptions {
            target: "world".to_string()
        })
    );
}

#[test]
fn same_override_name_loads_the_later_module() {
    let (mut loader, mut resolver, _initializer) = build(
        ExtensionBuilder::new()
            .with_extension_named(printer_module("first", "a", install_nothing), "custom")
            .with_extension_named(printer_module("second", "b", install_nothing), "custom"),
    );
    assert_eq!(loader.load("custom"), Ok("second"));
    assert_eq!(
        loader.load("custom"),
        Err(ExtensionError::LoadNotFound {
            name: "custom".to_string()
        })
    );
    assert_eq!(resolve(&mut resolver, "main", "custom"), Ok("custom".to_string()));
}

#[test]
fn globals_only_installs_without_import() {
    let (mut loader, mut resolver, initializer) =
        build(ExtensionBuilder::new().with_extension(printer_globals("emile", install_printer)));
    let mut store = OptionsStore::new();
    let globals = Globals::default();
    init_all(initializer, &mut store, &globals).unwrap();
    assert_eq!(
        globals.borrow().get("global_printer"),
        Some(&"hello emile".to_string())
    );
    assert!(resolve(&mut resolver, "main", "global_printer").is_err());
    assert!(loader.load("global_printer").is_err());
}

#[test]
fn unregistered_specifier_fails_to_resolve() {
    let (_loader, mut resolver, _initializer) =
        build(ExtensionBuilder::new().with_extension(printer_module("printer-def", "x", install_nothing)));
    assert_eq!(
        resolve(&mut resolver, "main", "unregistered-name"),
        Err(ExtensionError::ResolutionFailure {
            base: "main".to_string(),
            name: "unregistered-name".to_string()
        })
    );
}

#[test]
fn relative_specifier_resolves_against_base() {
    let mut builder = ExtensionBuilder::new();
    builder.add_extension_named(printer_module("printer-def", "x", install_nothing), "lib/printer");
    let (_loader, mut resolver, _initializer) = build(builder);
    assert_eq!(
        resolve(&mut resolver, "lib/main", "./printer"),
        Ok("lib/printer".to_string())
    );
    assert!(resolve(&mut resolver, "other/main", "./printer").is_err());
}

#[test]
fn module_loads_exactly_once() {
    let mut builder = ExtensionBuilder::new();
    builder.add_extension(printer_module("printer-def", "x", install_nothing));
    builder.add_extension_named(printer_module("other-def", "y", install_nothing), "other");
    let (mut loader, _resolver, _initializer) = build(builder);
    assert_eq!(loader.load("printer"), Ok("printer-def"));
    assert_eq!(
        loader.load("printer"),
        Err(ExtensionError::LoadNotFound {
            name: "printer".to_string()
        })
    );
    assert_eq!(loader.load("other"), Ok("other-def"));
    assert!(loader.load("other").is_err());
}

#[test]
fn later_binding_wins_on_same_key() {
    let (_loader, _resolver, initializer) = build(
        ExtensionBuilder::new()
            .with_extension(printer_globals("first", install_printer))
            .with_extension(printer_globals("second", install_printer)),
    );
    let mut store = OptionsStore::new();
    let globals = Globals::default();
    init_all(initializer, &mut store, &globals).unwrap();
    assert_eq!(
        globals.borrow().get("global_printer"),
        Some(&"hello second".to_string())
    );
    assert_eq!(store.evaluate("", print), Ok("hello second".to_string()));
}

#[test]
fn evaluate_before_init_misses_options() {
    let (mut loader, _resolver, _initializer) =
        build(ExtensionBuilder::new().with_extension(printer_module("printer-def", "x", install_nothing)));
    assert_eq!(loader.load("printer"), Ok("printer-def"));
    let store: OptionsStore<PrinterOptions> = OptionsStore::new();
    assert_eq!(
        store.evaluate("printer", print),
        Err(ExtensionError::OptionsMissing {
            name: "printer".to_string()
        })
    );
}

#[test]
fn init_stops_at_first_failure() {
    let (_loader, _resolver, initializer) = build(
        ExtensionBuilder::new()
            .with_extension_named(printer_module("a-def", "a", install_nothing), "a")
            .with_extension_named(printer_module("b-def", "b", install_failing), "b")
            .with_extension_named(printer_globals("c", install_printer), "c"),
    );
    let mut store = OptionsStore::new();
    let globals = Globals::default();
    assert_eq!(
        init_all(initializer, &mut store, &globals),
        Err("cannot install b".to_string())
    );
    assert_eq!(store.evaluate("a", print), Ok("hello a".to_string()));
    assert!(store.evaluate("b", print).is_err());
    assert!(store.evaluate("c", print).is_err());
    assert!(globals.borrow().is_empty());
}

#[test]
fn empty_registry_builds_empty_artifacts() {
    let (mut loader, mut resolver, initializer) = build(ExtensionBuilder::new());
    assert!(loader.load("printer").is_err());
    assert!(resolve(&mut resolver, "main", "printer").is_err());
    let mut store = OptionsStore::new();
    let globals = Globals::default();
    assert_eq!(init_all(initializer, &mut store, &globals), Ok(()));
    assert!(store.evaluate("printer", print).is_err());
}

#[test]
fn kind_is_reported() {
    assert!(printer_module("d", "x", install_nothing).is_module());
    assert!(!printer_globals("x", install_nothing).is_module());
}
