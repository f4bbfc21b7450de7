use edge_compile::emit_plugin::{EmitPlugin, EmitPluginOptions};

#[test]
fn plugin_reports_its_name() {
    let plugin = EmitPlugin::new(EmitPluginOptions {});
    assert_eq!(plugin.name(), "EmitPlugin");
}
